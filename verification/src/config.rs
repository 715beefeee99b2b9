//! Derivation of an engine's configuration from the caller's plain inputs:
//! the transcript URL, the ownership-list URLs, the comment template and
//! the comment cutoff date.
use vstd::prelude::*;

use crate::date::{self, Date};
use crate::repositories::Repository;
use crate::text;

verus! {

use vstd::string::StringSliceAdditionalSpecFns;

/// Connection settings for the chat front end; plain data, consumed
/// outside the library.
#[derive(Clone, Debug)]
pub struct IrcBotArgs {
    /// Nickname used by the bot.
    pub nickname: Vec<u8>,
    /// Chat server host.
    pub server: Vec<u8>,
    /// Port of the chat server.
    pub port: u16,
    /// Username of the owner of the bot.
    pub username: Option<Vec<u8>>,
    /// Password of the owner of the bot, if needed.
    pub password: Option<Vec<u8>>,
    /// Channels to join automatically.
    pub channels: Vec<Vec<u8>>,
}

/// Everything an engine run needs, fixed at creation.
#[derive(Clone, Debug)]
pub struct EngineConfig {
    /// URL of the transcript, the base of every deep link.
    pub url: Vec<u8>,
    /// Comment template; every `%URL%` in it is replaced by the deep link.
    pub message_template: Vec<u8>,
    /// Whether to append the sanitized excerpt to each comment.
    pub transcript: bool,
    /// Simulation mode: report instead of creating comments.
    pub dry_run: bool,
    /// Comments at or after this date count for duplicate detection.
    pub min_date: Date,
    /// Owned repositories; absent means no ownership filtering.
    pub repos: Option<Vec<Repository>>,
}

/// The channel name with a leading `#` stripped.
pub open spec fn channel_name_spec(channel: Seq<u8>) -> Seq<u8> {
    if channel.len() > 0 && channel[0] == 35 {
        channel.subrange(1, channel.len() as int)
    } else {
        channel
    }
}

/// Strip the leading `#` of a channel name, if any.
pub fn channel_name(channel: &Vec<u8>) -> (r: Vec<u8>)
    ensures
        r@ == channel_name_spec(channel@),
{
    if channel.len() > 0 && channel[0] == 35 {
        text::copy_range(channel, 1, channel.len())
    } else {
        proof {
            assert(channel@.subrange(0, channel@.len() as int) =~= channel@);
        }
        text::copy_range(channel, 0, channel.len())
    }
}

/// The conventional transcript URL for a meeting of `channel` on `d`.
pub open spec fn minutes_url_spec(d: Date, channel: Seq<u8>) -> Seq<u8> {
    "https://www.w3.org/".spec_bytes() + text::dec(d.year as nat) + "/".spec_bytes()
        + text::dec_pad2(d.month as nat) + "/".spec_bytes() + text::dec_pad2(d.day as nat)
        + "-".spec_bytes() + channel + "-minutes.html".spec_bytes()
}

/// Build the conventional transcript URL from date and channel name.
pub fn minutes_url(d: &Date, channel: &Vec<u8>) -> (r: Vec<u8>)
    requires
        date::valid_date(*d),
    ensures
        r@ == minutes_url_spec(*d, channel@),
{
    let mut out = text::lit("https://www.w3.org/");
    text::push_dec(&mut out, d.year);
    let slash = text::lit("/");
    text::push_all(&mut out, &slash);
    text::push_dec_pad2(&mut out, d.month);
    text::push_all(&mut out, &slash);
    text::push_dec_pad2(&mut out, d.day);
    let dash = text::lit("-");
    text::push_all(&mut out, &dash);
    text::push_all(&mut out, channel);
    let tail = text::lit("-minutes.html");
    text::push_all(&mut out, &tail);
    assert(out@ =~= minutes_url_spec(*d, channel@));
    out
}

/// The URL of the repository list of one group.
pub open spec fn group_url_spec(group: Seq<u8>) -> Seq<u8> {
    "https://raw.githubusercontent.com/w3c/groups/refs/heads/main/".spec_bytes() + group
        + "/repositories.json".spec_bytes()
}

/// The URL of the repository list of one group.
pub fn group_url(group: &Vec<u8>) -> (r: Vec<u8>)
    ensures
        r@ == group_url_spec(group@),
{
    let mut out = text::lit("https://raw.githubusercontent.com/w3c/groups/refs/heads/main/");
    text::push_all(&mut out, group);
    let tail = text::lit("/repositories.json");
    text::push_all(&mut out, &tail);
    assert(out@ =~= group_url_spec(group@));
    out
}

/// One repository-list URL per comma-separated group identifier.
pub fn group_urls(groups: &Vec<u8>) -> (r: Vec<Vec<u8>>)
    ensures
        r@.len() == text::split_on(groups@, 44).len(),
        forall|k: int|
            0 <= k < r@.len() ==> (#[trigger] r@[k])@ == group_url_spec(
                text::split_on(groups@, 44)[k],
            ),
{
    let pieces = text::split_bytes(groups, 44);
    let mut out: Vec<Vec<u8>> = Vec::new();
    let mut k: usize = 0;
    proof {
        assert(pieces@.map_values(|p: Vec<u8>| p@) == text::split_on(groups@, 44));
    }
    while k < pieces.len()
        invariant
            0 <= k <= pieces@.len(),
            pieces@.map_values(|p: Vec<u8>| p@) == text::split_on(groups@, 44),
            out@.len() == k,
            forall|j: int|
                0 <= j < k ==> (#[trigger] out@[j])@ == group_url_spec(
                    text::split_on(groups@, 44)[j],
                ),
        decreases pieces@.len() - k,
    {
        let u = group_url(&pieces[k]);
        proof {
            assert(pieces@.map_values(|p: Vec<u8>| p@)[k as int] == pieces@[k as int]@);
        }
        out.push(u);
        k += 1;
    }
    out
}

/// The default group identifier of a channel: `wg/` followed by the
/// channel name.
pub fn default_groups(channel: &Vec<u8>) -> (r: Vec<u8>)
    ensures
        r@ == "wg/".spec_bytes() + channel@,
{
    let mut out = text::lit("wg/");
    text::push_all(&mut out, channel);
    out
}

/// The comment template for a meeting of `channel` on `d`; the deep link
/// replaces `%URL%` when a comment is composed.
pub open spec fn message_template_spec(channel: Seq<u8>, d: Date) -> Seq<u8> {
    "This was discussed during the [".spec_bytes() + channel + " meeting on ".spec_bytes()
        + date::long_date(d) + "](%URL%).".spec_bytes()
}

/// Build the comment template from the channel (as given, `#` included)
/// and the meeting date.
pub fn message_template(channel: &Vec<u8>, d: &Date) -> (r: Vec<u8>)
    requires
        date::valid_date(*d),
    ensures
        r@ == message_template_spec(channel@, *d),
{
    let mut out = text::lit("This was discussed during the [");
    text::push_all(&mut out, channel);
    let mid = text::lit(" meeting on ");
    text::push_all(&mut out, &mid);
    date::push_long_date(&mut out, d);
    let tail = text::lit("](%URL%).");
    text::push_all(&mut out, &tail);
    assert(out@ =~= message_template_spec(channel@, *d));
    out
}

} // verus!
