//! Decisions of the embedded video player that do not depend on time or pixels.

use vstd::prelude::*;

verus! {

/// Outcome of interacting with the player this frame.
#[derive(Debug, Clone, Copy, PartialEq, Eq, Structural)]
pub enum VideoPlayerAction {
    NoAction,
    /// The user asked to open the media externally (unsupported codec).
    OpenExternally,
}

impl Default for VideoPlayerAction {
    fn default() -> (a: VideoPlayerAction)
        ensures
            a == VideoPlayerAction::NoAction,
    {
        VideoPlayerAction::NoAction
    }
}

/// What a click on the player does: a player that cannot decode its media
/// asks for it to be opened externally when it has somewhere to send it, and
/// otherwise does nothing; a working player toggles playback. The second
/// value says whether playback toggles.
pub fn click_outcome(clicked: bool, unsupported: bool, has_external_url: bool) -> (r: (VideoPlayerAction, bool))
    ensures
        r.0 == (if clicked && unsupported && has_external_url {
            VideoPlayerAction::OpenExternally
        } else {
            VideoPlayerAction::NoAction
        }),
        r.1 == (clicked && !unsupported),
{
    if clicked {
        if unsupported {
            if has_external_url {
                (VideoPlayerAction::OpenExternally, false)
            } else {
                (VideoPlayerAction::NoAction, false)
            }
        } else {
            (VideoPlayerAction::NoAction, true)
        }
    } else {
        (VideoPlayerAction::NoAction, false)
    }
}

/// The EBML magic that starts a WebM file.
pub open spec fn is_webm(bytes: Seq<u8>) -> bool {
    bytes.len() >= 4 && bytes[0] == 0x1A && bytes[1] == 0x45 && bytes[2] == 0xDF && bytes[3] == 0xA3
}

/// Refuse bytes that cannot be an MP4 before handing them to the demuxer:
/// fewer than twelve bytes, or a WebM file.
pub fn precheck_container(bytes: &[u8]) -> (r: Result<(), String>)
    ensures
        bytes@.len() < 12 ==> (r matches Err(e) && e@ == "Video too small"@),
        bytes@.len() >= 12 && is_webm(bytes@) ==> (r matches Err(e) && e@
            == "WebM is not supported yet (H.264 MP4 only)"@),
        bytes@.len() >= 12 && !is_webm(bytes@) ==> r is Ok,
{
    if bytes.len() < 12 {
        return Err(String::from_str("Video too small"));
    }
    if bytes[0] == 0x1A && bytes[1] == 0x45 && bytes[2] == 0xDF && bytes[3] == 0xA3 {
        return Err(String::from_str("WebM is not supported yet (H.264 MP4 only)"));
    }
    Ok(())
}

} // verus!
