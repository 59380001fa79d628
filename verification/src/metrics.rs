//! Classification of subscription notifications for the pipeline's counters.
use vstd::prelude::*;
use crate::text::{char_range, chars_of, find, find_exec, string_from};

verus! {

/// The text that opens the channel field of a notification: `"channel":"`.
pub open spec fn channel_key() -> Seq<char> {
    "\"channel\":\""@
}

/// The channel group of a notification text: the part of its channel name
/// before the first dot (the whole name where there is none), or "unknown"
/// where no `"channel":"` is followed by a closing quote.
pub open spec fn channel_group(text: Seq<char>) -> Seq<char> {
    match find(text, channel_key()) {
        None => "unknown"@,
        Some(p) => {
            let rest = text.skip(p + channel_key().len());
            match find(rest, seq!['"']) {
                None => "unknown"@,
                Some(e) => {
                    let channel = rest.take(e);
                    match find(channel, seq!['.']) {
                        Some(d) => channel.take(d),
                        None => channel,
                    }
                },
            }
        },
    }
}

/// The channel group of a subscription notification, found by a plain scan
/// of its text: the prefix of `params.channel` before the first `.` (such as
/// "ticker"), or "unknown".
pub fn extract_channel_group(text: &str) -> (r: String)
    ensures
        r@ == channel_group(text@),
{
    let cs = chars_of(text);
    let key = chars_of("\"channel\":\"");
    let quote = chars_of("\"");
    let dot = chars_of(".");
    proof {
        reveal_strlit("\"");
        reveal_strlit(".");
        assert(quote@ =~= seq!['"']);
        assert(dot@ =~= seq!['.']);
    }
    match find_exec(cs.as_slice(), key.as_slice(), 0) {
        None => "unknown".to_owned(),
        Some(pos) => {
            proof {
                crate::text::lemma_find_from(cs@, key@, 0);
            }
            assert(pos + key.len() <= cs.len());
            let start: usize = pos + key.len();
            let rest = char_range(cs.as_slice(), start, cs.len());
            assert(rest@ =~= text@.skip(start as int));
            match find_exec(rest.as_slice(), quote.as_slice(), 0) {
                None => "unknown".to_owned(),
                Some(end) => {
                    proof {
                        crate::text::lemma_find_from(rest@, quote@, 0);
                    }
                    let channel = char_range(rest.as_slice(), 0, end);
                    assert(channel@ =~= rest@.take(end as int));
                    match find_exec(channel.as_slice(), dot.as_slice(), 0) {
                        Some(d) => {
                            proof {
                                crate::text::lemma_find_from(channel@, dot@, 0);
                            }
                            let group = char_range(channel.as_slice(), 0, d);
                            assert(group@ =~= channel@.take(d as int));
                            string_from(group.as_slice())
                        },
                        None => string_from(channel.as_slice()),
                    }
                },
            }
        },
    }
}

} // verus!
