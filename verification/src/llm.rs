//! Model invocation for images and audio. Neither is written yet; each
//! gives the notice that says so.
use vstd::prelude::*;

verus! {

/// The notice for a feature that is not written yet, naming the flag and
/// the milestone that brings it.
pub open spec fn pending_notice_spec(what: Seq<char>, milestone: Seq<char>) -> Seq<char> {
    "genie (rust): "@ + what + " not yet implemented ("@ + milestone + "). See RUST_PLAN.md"@
}

/// The notice for a feature that is not written yet.
pub fn pending_notice(what: &str, milestone: &str) -> (n: String)
    ensures
        n@ == pending_notice_spec(what@, milestone@),
{
    let mut n = "genie (rust): ".to_string();
    n.append(what);
    n.append(" not yet implemented (");
    n.append(milestone);
    n.append("). See RUST_PLAN.md");
    n
}

/// Describing an image (`--image`) is not written yet: its notice.
pub fn describe_image(_path: &str) -> (n: String)
    ensures
        n@ == pending_notice_spec("--image"@, "M1"@),
{
    pending_notice("--image", "M1")
}

/// Transcribing audio (`--audio`) is not written yet: its notice.
pub fn transcribe_audio(_path: &str) -> (n: String)
    ensures
        n@ == pending_notice_spec("--audio"@, "M1"@),
{
    pending_notice("--audio", "M1")
}

} // verus!
