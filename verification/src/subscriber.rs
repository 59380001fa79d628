//! The channel list of the subscription forwarder: reading it from text,
//! choosing its source, and checking channel names against the known
//! prefixes.
use vstd::prelude::*;
use crate::text::{split, split_exec, starts_with, starts_with_exec, trim, trim_exec, views};

verus! {

/// The channel prefixes that Deribit is known to accept.
pub open spec fn valid_prefixes() -> Seq<Seq<char>> {
    seq![
        "markprice."@,
        "deribit_price_index."@,
        "deribit_volatility_index."@,
        "deribit_price_statistics."@,
        "trades."@,
        "book."@,
        "ticker."@,
        "quote."@,
        "perpetual."@,
        "instruments."@,
        "user."@,
        "announcements."@,
    ]
}

/// `ch` begins with one of the known prefixes.
pub open spec fn valid_channel(ch: Seq<char>) -> bool {
    exists|i: int| 0 <= i < valid_prefixes().len() && starts_with(ch, #[trigger] valid_prefixes()[i])
}

/// Whether `ch` begins with one of the known channel prefixes.
pub fn is_valid_channel(ch: &str) -> (r: bool)
    ensures
        r == valid_channel(ch@),
{
    let prefixes: [&str; 12] = [
        "markprice.",
        "deribit_price_index.",
        "deribit_volatility_index.",
        "deribit_price_statistics.",
        "trades.",
        "book.",
        "ticker.",
        "quote.",
        "perpetual.",
        "instruments.",
        "user.",
        "announcements.",
    ];
    let ghost ps = valid_prefixes();
    assert(forall|i: int| 0 <= i < 12 ==> prefixes@[i]@ == #[trigger] ps[i]);
    let mut i: usize = 0;
    while i < 12
        invariant
            i <= 12,
            ps == valid_prefixes(),
            forall|k: int| 0 <= k < 12 ==> prefixes@[k]@ == #[trigger] ps[k],
            forall|k: int| 0 <= k < i ==> !starts_with(ch@, #[trigger] ps[k]),
        decreases 12 - i,
    {
        if starts_with_exec(ch, prefixes[i]) {
            assert(prefixes@[i as int]@ == ps[i as int]);
            return true;
        }
        i = i + 1;
    }
    false
}

/// The pieces of `s` between `sep`, trimmed, the empty ones left out.
pub open spec fn trimmed_pieces(pieces: Seq<Seq<char>>) -> Seq<Seq<char>> {
    pieces.map_values(|p: Seq<char>| trim(p)).filter(|p: Seq<char>| p.len() > 0)
}

/// The channels of a text with one channel per line: each line trimmed,
/// blank lines left out.
pub open spec fn channels_of_text(content: Seq<char>) -> Seq<Seq<char>> {
    trimmed_pieces(split(content, '\n'))
}

/// The trimmed, non-empty pieces of `s` between occurrences of `sep`.
pub fn trimmed_split(s: &str, sep: char) -> (r: Vec<String>)
    ensures
        views(r@) == trimmed_pieces(split(s@, sep)),
{
    let pieces = split_exec(s, sep);
    let ghost ps = split(s@, sep);
    let mut out: Vec<String> = Vec::new();
    let mut i: usize = 0;
    while i < pieces.len()
        invariant
            i <= pieces@.len(),
            views(pieces@) == ps,
            views(out@) == trimmed_pieces(ps.take(i as int)),
        decreases pieces@.len() - i,
    {
        let t = trim_exec(pieces[i].as_str());
        proof {
            assert(ps[i as int] == pieces@[i as int]@);
            let before = ps.take(i as int);
            let after = ps.take(i + 1);
            assert(after =~= before.push(ps[i as int]));
            let f = |p: Seq<char>| trim(p);
            let keep = |p: Seq<char>| p.len() > 0;
            assert(after.map_values(f) =~= before.map_values(f).push(trim(ps[i as int])));
            before.map_values(f).lemma_filter_push(trim(ps[i as int]), keep);
        }
        if t.as_str().is_empty() {
        } else {
            proof {
                assert(views(out@.push(t)) =~= views(out@).push(t@));
            }
            out.push(t);
        }
        i = i + 1;
    }
    assert(ps.take(i as int) =~= ps);
    out
}

/// The channels of `content`, one per line: each line trimmed, blank lines
/// left out. (A line's carriage return, if any, is white space and so goes
/// with the trimming.)
pub fn channels_from_text(content: &str) -> (r: Vec<String>)
    ensures
        views(r@) == channels_of_text(content@),
{
    trimmed_split(content, '\n')
}

/// The channels that do not begin with a known prefix, in order; a
/// subscription to them may fail.
pub open spec fn invalid_channels(channels: Seq<Seq<char>>) -> Seq<Seq<char>> {
    channels.filter(|c: Seq<char>| !valid_channel(c))
}

/// The channels of `channels` that do not begin with a known prefix; the
/// caller warns about them.
pub fn validate_channels(channels: &[String]) -> (r: Vec<String>)
    ensures
        views(r@) == invalid_channels(views(channels@)),
{
    let mut out: Vec<String> = Vec::new();
    let mut i: usize = 0;
    while i < channels.len()
        invariant
            i <= channels@.len(),
            views(out@) == invalid_channels(views(channels@.take(i as int))),
        decreases channels@.len() - i,
    {
        let ok = is_valid_channel(channels[i].as_str());
        proof {
            let before = views(channels@.take(i as int));
            let after = views(channels@.take(i + 1));
            assert(after =~= before.push(channels@[i as int]@));
            before.lemma_filter_push(channels@[i as int]@, |c: Seq<char>| !valid_channel(c));
        }
        if !ok {
            let c = channels[i].clone();
            proof {
                assert(views(out@.push(c)) =~= views(out@).push(channels@[i as int]@));
            }
            out.push(c);
        }
        i = i + 1;
    }
    assert(channels@.take(i as int) =~= channels@);
    out
}

/// The channel list to subscribe to: that of the channels file, where one
/// was read and it names a channel; else that of the comma-separated list,
/// where one was given and it names a channel; else that of the built-in
/// list.
pub open spec fn resolved_channels(
    file: Option<Seq<char>>,
    list: Option<Seq<char>>,
    default_text: Seq<char>,
) -> Seq<Seq<char>> {
    let from_file = match file {
        Some(f) => channels_of_text(f),
        None => Seq::empty(),
    };
    let from_list = match list {
        Some(l) => trimmed_pieces(split(l, ',')),
        None => Seq::empty(),
    };
    if from_file.len() > 0 {
        from_file
    } else if from_list.len() > 0 {
        from_list
    } else {
        channels_of_text(default_text)
    }
}

/// The channels to subscribe to, from the text of the channels file (where it
/// was read), the comma-separated list (where it was given), and the
/// built-in list, in that order of preference.
pub fn resolve_channels(file: Option<&str>, list: Option<&str>, default_text: &str) -> (r: Vec<
    String,
>)
    ensures
        views(r@) == resolved_channels(
            match file {
                Some(f) => Some(f@),
                None => None,
            },
            match list {
                Some(l) => Some(l@),
                None => None,
            },
            default_text@,
        ),
{
    if let Some(f) = file {
        let chs = channels_from_text(f);
        if chs.len() > 0 {
            return chs;
        }
    }
    if let Some(l) = list {
        let chs = trimmed_split(l, ',');
        if chs.len() > 0 {
            return chs;
        }
    }
    channels_from_text(default_text)
}

/// Whether the dry-run setting is on: "true" or "1".
pub fn dry_run_flag(value: Option<&str>) -> (r: bool)
    ensures
        r == match value {
            Some(v) => v@ == "true"@ || v@ == "1"@,
            None => false,
        },
{
    match value {
        Some(v) => crate::model::is_name(v, "true") || crate::model::is_name(v, "1"),
        None => false,
    }
}

} // verus!
