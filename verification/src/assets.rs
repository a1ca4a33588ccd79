//! Answers to requests for the files of the web interface.

use mime_guess::MimeGuess;
use vstd::prelude::*;

verus! {

/// The directory of the interface's files.
pub const ASSET_DIR: &'static str = "assets/";

/// The answer to a request for a file of the interface.
pub enum AssetReply {
    /// The file, with the media type to declare for it.
    Found { content_type: String, body: Vec<u8> },
    /// There is no such file.
    NotFound,
}

/// The media types that a file's name suggests, as `mime_guess` has them.
#[verifier::external_type_specification]
#[verifier::external_body]
pub struct ExMimeGuess(MimeGuess);

/// Calls `mime_guess::from_path`, which looks up the media types known for
/// the extension of the file's name. Which part of a name counts as its
/// extension is the platform's matter, so nothing is promised of the result.
#[verifier::external_body]
fn guess_from_path(file: &str) -> (guess: MimeGuess) {
    mime_guess::from_path(file)
}

/// Calls `MimeGuess::first_or_octet_stream`, which gives the first of the
/// guessed media types, or `application/octet-stream` where there is none,
/// and writes it as text. Nothing is promised of the text.
#[verifier::external_body]
fn first_or_octet_stream(guess: &MimeGuess) -> (content_type: String) {
    guess.first_or_octet_stream().as_ref().to_string()
}

/// Where the file `file` of the interface is kept: under `assets/`.
pub fn asset_path(file: &str) -> (path: String)
    ensures
        path@ == ASSET_DIR@ + file@,
{
    let mut path = ASSET_DIR.to_owned();
    path.append(file);
    path
}

/// The answer for a file that was looked up: the content with the media type
/// given, or `NotFound` where there is no content.
pub fn asset_reply(content: Option<Vec<u8>>, content_type: String) -> (reply: AssetReply)
    ensures
        reply == match content {
            Some(body) => (AssetReply::Found { content_type, body }),
            None => AssetReply::NotFound,
        },
{
    match content {
        Some(body) => AssetReply::Found { content_type, body },
        None => AssetReply::NotFound,
    }
}

/// The answer to a request for the file `file`, whose content was looked up
/// under `asset_path(file)`: the content as it is, with a media type guessed
/// from the file's name, or `NotFound` where there is no content.
pub fn get_assets(file: &str, content: Option<Vec<u8>>) -> (reply: AssetReply)
    ensures
        match content {
            Some(found) => reply matches AssetReply::Found { body, .. } && body == found,
            None => reply is NotFound,
        },
{
    match content {
        Some(body) => {
            let content_type = first_or_octet_stream(&guess_from_path(file));
            asset_reply(Some(body), content_type)
        },
        None => AssetReply::NotFound,
    }
}

} // verus!
