use vstd::prelude::*;

use crate::text::{chars_of, occurs_at, push_decimal, push_str};
use crate::text::decimal;

verus! {

/// What a message carries that could be a video: the content type of each
/// attachment (when known) and, for each embed, whether it holds a video.
pub struct MessageMedia {
    pub attachment_types: Vec<Option<String>>,
    pub embed_has_video: Vec<bool>,
}

/// An attachment whose content type starts with "video/" is a video.
pub open spec fn is_video_type(t: Option<String>) -> bool {
    match t {
        Some(s) => "video/"@.is_prefix_of(s@),
        None => false,
    }
}

/// A message holds a video: a video attachment, or an embed with a video.
pub open spec fn has_video_spec(m: &MessageMedia) -> bool {
    ||| exists|i: int| 0 <= i < m.attachment_types@.len() && is_video_type(#[trigger] m.attachment_types@[i])
    ||| exists|i: int| 0 <= i < m.embed_has_video@.len() && #[trigger] m.embed_has_video@[i]
}

/// Law: a message with a video attachment, at any position among its
/// attachments, or with an embed holding a video, at any position, holds a
/// video and is therefore kept: it is never rechecked nor deleted.
pub proof fn law_any_video_keeps_the_message(m: &MessageMedia, i: int, author_is_bot: bool, channel_id: u64, clips_channels: Seq<u64>)
    requires
        (0 <= i < m.attachment_types@.len() && is_video_type(m.attachment_types@[i]))
            || (0 <= i < m.embed_has_video@.len() && m.embed_has_video@[i]),
    ensures
        has_video_spec(m),
        !(!author_is_bot && clips_channels.contains(channel_id) && !has_video_spec(m)),
{
}

/// Law: a message holds a video only through one of its attachments or embeds.
pub proof fn law_video_comes_from_media(m: &MessageMedia)
    requires
        has_video_spec(m),
    ensures
        (exists|i: int| 0 <= i < m.attachment_types@.len() && is_video_type(#[trigger] m.attachment_types@[i]))
            || (exists|i: int| 0 <= i < m.embed_has_video@.len() && #[trigger] m.embed_has_video@[i]),
{
}

/// Whether a message holds a video (an attachment of a video content type, or
/// an embed with a video).
pub fn has_video(m: &MessageMedia) -> (b: bool)
    ensures
        b == has_video_spec(m),
        forall|i: int|
            0 <= i < m.attachment_types@.len() && is_video_type(#[trigger] m.attachment_types@[i]) ==> b,
        forall|i: int| 0 <= i < m.embed_has_video@.len() && #[trigger] m.embed_has_video@[i] ==> b,
        b ==> (exists|i: int| 0 <= i < m.attachment_types@.len() && is_video_type(#[trigger] m.attachment_types@[i]))
            || (exists|i: int| 0 <= i < m.embed_has_video@.len() && #[trigger] m.embed_has_video@[i]),
{
    let prefix = chars_of("video/");
    let mut i: usize = 0;
    while i < m.attachment_types.len()
        invariant
            i <= m.attachment_types.len(),
            prefix@ == "video/"@,
            forall|j: int| 0 <= j < i ==> !is_video_type(#[trigger] m.attachment_types@[j]),
        decreases m.attachment_types.len() - i,
    {
        match &m.attachment_types[i] {
            Some(t) => {
                let c = chars_of(t.as_str());
                if occurs_at(&c, &prefix, 0) {
                    assert(is_video_type(m.attachment_types@[i as int]));
                    return true;
                }
            },
            None => {},
        }
        i += 1;
    }
    let mut k: usize = 0;
    while k < m.embed_has_video.len()
        invariant
            k <= m.embed_has_video.len(),
            forall|j: int| 0 <= j < m.attachment_types@.len() ==> !is_video_type(#[trigger] m.attachment_types@[j]),
            forall|j: int| 0 <= j < k ==> !#[trigger] m.embed_has_video@[j],
        decreases m.embed_has_video.len() - k,
    {
        if m.embed_has_video[k] {
            return true;
        }
        k += 1;
    }
    false
}

/// When a message is posted: whether to look at it again after the grace
/// period (during which Discord may unfurl link embeds), that is, whether it
/// is a message from a person, in a clips channel, without a video so far.
pub fn needs_recheck(author_is_bot: bool, channel_id: u64, clips_channels: &Vec<u64>, m: &MessageMedia) -> (b: bool)
    ensures
        b == (!author_is_bot && clips_channels@.contains(channel_id) && !has_video_spec(m)),
        b == (!author_is_bot && clips_channels@.contains(channel_id) && !((exists|i: int|
            0 <= i < m.attachment_types@.len() && is_video_type(#[trigger] m.attachment_types@[i])) || (exists|i: int|
            0 <= i < m.embed_has_video@.len() && #[trigger] m.embed_has_video@[i]))),
{
    if author_is_bot {
        return false;
    }
    let mut found = false;
    let mut i: usize = 0;
    while i < clips_channels.len()
        invariant
            i <= clips_channels.len(),
            found == exists|j: int| 0 <= j < i && clips_channels@[j] == channel_id,
        decreases clips_channels.len() - i,
    {
        if clips_channels[i] == channel_id {
            found = true;
        }
        i += 1;
    }
    if !found {
        return false;
    }
    !has_video(m)
}

/// After the grace period: whether to delete the message as it now stands,
/// that is, whether it still holds no video.
pub fn should_delete(m: &MessageMedia) -> (b: bool)
    ensures
        b == !has_video_spec(m),
        b == !((exists|i: int| 0 <= i < m.attachment_types@.len() && is_video_type(#[trigger] m.attachment_types@[i]))
            || (exists|i: int| 0 <= i < m.embed_has_video@.len() && #[trigger] m.embed_has_video@[i])),
{
    !has_video(m)
}

/// The private message sent to the author of a removed message.
pub open spec fn removal_notice_spec(channel_id: u64) -> Seq<char> {
    "Your message in <#"@ + decimal(channel_id as nat) + "> was removed because it didn't include a video or clip. That channel only allows messages with a video attachment or a video link (e.g. YouTube, Streamable, Twitch clip)."@
}

/// The private message sent to the author of a message removed from the
/// clips channel `channel_id`.
pub fn removal_notice(channel_id: u64) -> (s: String)
    ensures
        s@ == removal_notice_spec(channel_id),
{
    let mut s = String::new();
    push_str(&mut s, "Your message in <#");
    push_decimal(&mut s, channel_id);
    push_str(&mut s, "> was removed because it didn't include a video or clip. That channel only allows messages with a video attachment or a video link (e.g. YouTube, Streamable, Twitch clip).");
    s
}

} // verus!
