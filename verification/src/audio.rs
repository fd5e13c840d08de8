//! Transcription of audio messages by a Whisper-compatible service.

use crate::text;
use crate::text::Class;
use vstd::prelude::*;
use vstd::string::*;

verus! {

/// A transcription service.
#[derive(Debug)]
pub struct SpeachesClient {
    base_url: String,
}

impl SpeachesClient {
    /// The address of the service.
    pub closed spec fn base(self) -> Seq<char> {
        self.base_url@
    }

    /// A service at `base_url`.
    pub fn new(base_url: String) -> (r: Self)
        ensures
            r.base() == base_url@,
    {
        SpeachesClient { base_url }
    }

    /// Where audio is sent.
    pub fn transcriptions_url(&self) -> (r: String)
        ensures
            r@ == text::trim_back(self.base(), Class::Only('/')) + "/v1/audio/transcriptions"@,
    {
        let v = text::chars_of(self.base_url.as_str());
        let mut url = text::string_of(text::skip_back(v.as_slice(), Class::Only('/')));
        url.append("/v1/audio/transcriptions");
        url
    }
}

/// The transcript that a successful answer holds.
pub fn transcript(answer: &str) -> (r: String)
    ensures
        r@ == text::trim(answer@),
{
    text::trimmed(answer)
}

/// The error of a request that was answered without success.
pub fn failed_text(status: &str, body: &str) -> (r: String)
    ensures
        r@ == "speaches transcription failed "@ + status@ + ": "@ + body@,
{
    let mut out = "speaches transcription failed ".to_owned();
    out.append(status);
    out.append(": ");
    out.append(body);
    out
}

} // verus!
