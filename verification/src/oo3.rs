//! The outline container: a directory with the compressed outline and the
//! images that the outline refers to.

use vstd::prelude::*;
use vstd::string::StringExecFns;
use flate2::read::GzDecoder;
use std::io::Read;
use sxd_document::Package;
use crate::extractor::{parse_outcome, parse_xml};
use crate::reading::ExtractError;
use crate::text::opt_view;

verus! {

/// The text that gzip-compressed bytes hold; none where the bytes are not a
/// gzip stream or what they hold is not UTF-8.
pub uninterp spec fn gunzipped(bytes: Seq<u8>) -> Option<Seq<char>>;

/// `GzDecoder::new` and `Read::read_to_string`: the text that the
/// gzip-compressed bytes hold, or nothing where reading it fails.
#[verifier::external_body]
pub(crate) fn gunzip_text(bytes: &[u8]) -> (r: Option<String>)
    ensures
        opt_view(r) == gunzipped(bytes@),
{
    let mut text = String::new();
    match GzDecoder::new(bytes).read_to_string(&mut text) {
        Ok(_) => Some(text),
        Err(_) => None,
    }
}

/// An outline container, known by the path of its directory.
pub struct OO3File(pub String);

/// The path of the compressed outline in the container at `dir`.
pub open spec fn contents_path_of(dir: Seq<char>) -> Seq<char> {
    dir + "/contents.xml"@
}

/// The pattern that the images in the container at `dir` match.
pub open spec fn image_pattern_of(dir: Seq<char>) -> Seq<char> {
    dir + "/*.png"@
}

/// What reading the compressed outline ends in: a document, or the error
/// that says why there is none.
pub open spec fn xml_outcome(gzip_xml: Seq<u8>) -> Result<(), ExtractError> {
    match gunzipped(gzip_xml) {
        Some(text) => parse_outcome(text),
        None => Err(ExtractError::Container),
    }
}

impl OO3File {
    /// The container in the directory at `path`.
    pub fn new(path: String) -> (r: OO3File)
        ensures
            r.0 == path,
    {
        OO3File(path)
    }

    /// The path of the compressed outline.
    pub fn contents_path(&self) -> (r: String)
        ensures
            r@ == contents_path_of(self.0@),
    {
        let mut path = self.0.clone();
        path.append("/contents.xml");
        path
    }

    /// The pattern that the paths of the container's images match.
    pub fn image_pattern(&self) -> (r: String)
        ensures
            r@ == image_pattern_of(self.0@),
    {
        let mut path = self.0.clone();
        path.append("/*.png");
        path
    }

    /// The outline's markup, from the bytes of the compressed outline.
    pub fn xml_raw(&self, gzip_xml: &[u8]) -> (r: Result<String, ExtractError>)
        ensures
            match r {
                Ok(text) => gunzipped(gzip_xml@) == Some(text@),
                Err(e) => e == ExtractError::Container && gunzipped(gzip_xml@).is_none(),
            },
    {
        match gunzip_text(gzip_xml) {
            Some(text) => Ok(text),
            None => Err(ExtractError::Container),
        }
    }

    /// The outline document, from the bytes of the compressed outline.
    pub fn xml(&self, gzip_xml: &[u8]) -> (r: Result<Package, ExtractError>)
        ensures
            match r {
                Ok(_) => xml_outcome(gzip_xml@).is_ok(),
                Err(e) => xml_outcome(gzip_xml@) == Err::<(), ExtractError>(e),
            },
    {
        let text = self.xml_raw(gzip_xml)?;
        parse_xml(text.as_str())
    }
}

} // verus!
