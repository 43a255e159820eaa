//! The one-shot "previous logs" path: parsing the raw text a one-shot fetch
//! returns into timestamped entries, and the global chronological sort that
//! orders entries of many pods before first display.

use vstd::prelude::*;

use crate::error::Errors;
use crate::registry::Pod;
use crate::text::{find_sep, lemma_find_sep_at, spec_split, split_char};

verus! {

/// What `chrono::DateTime::parse_from_rfc3339` accepts: the instant the text
/// denotes, as (unix seconds, subsecond nanoseconds), or nothing when the
/// text is not a valid RFC 3339 timestamp. The result depends on the text
/// alone.
pub uninterp spec fn rfc3339_instant(s: Seq<char>) -> Option<(i64, u32)>;

/// Relies on `chrono::DateTime::parse_from_rfc3339`; the `timestamp` and
/// `timestamp_subsec_nanos` accessors only convert the parsed value to plain
/// integers.
#[verifier::external_body]
pub fn parse_rfc3339(s: &str) -> (r: Result<(i64, u32), Errors>)
    ensures
        r is Ok <==> rfc3339_instant(s@) is Some,
        r matches Ok(t) ==> rfc3339_instant(s@) == Some(t),
        r matches Err(e) ==> e is LogError,
{
    match chrono::DateTime::parse_from_rfc3339(s) {
        Ok(d) => Ok((d.timestamp(), d.timestamp_subsec_nanos())),
        Err(err) => Err(Errors::LogError(err.to_string())),
    }
}

/// One previously fetched log line: when it was written, the text kept for
/// display, and the pod it belongs to.
#[derive(Debug)]
pub struct LogEntry {
    pub secs: i64,
    pub nanos: u32,
    pub line: String,
    pub pod: Pod,
}

/// The timestamp token of a raw line: everything before the first space (the
/// whole line if it has no space).
pub open spec fn spec_date_token(piece: Seq<char>) -> Seq<char> {
    piece.subrange(0, find_sep(piece, ' '))
}

/// The text kept for display: the whole line when timestamps are wanted,
/// else what follows the token and its space.
pub open spec fn spec_line_rest(piece: Seq<char>, timestamps: bool) -> Seq<char> {
    if timestamps {
        piece
    } else if find_sep(piece, ' ') < piece.len() {
        piece.subrange(find_sep(piece, ' ') + 1, piece.len() as int)
    } else {
        Seq::empty()
    }
}

/// The non-empty lines of the raw text.
pub open spec fn spec_raw_pieces(raw: Seq<char>) -> Seq<Seq<char>> {
    spec_split(raw, '\n').filter(|p: Seq<char>| p.len() > 0)
}

/// Parses what a one-shot log fetch returned for one pod: one entry per
/// non-empty line, each expected to begin with an RFC 3339 timestamp token.
/// Returns an error exactly when some non-empty line's token is not such a
/// timestamp.
pub fn parse_previous_log_lines(pod: &Pod, raw: &str, timestamps: bool) -> (r: Result<
    Vec<LogEntry>,
    Errors,
>)
    ensures
        r is Ok <==> (forall|k: int|
            0 <= k < spec_split(raw@, '\n').len() ==> ((#[trigger] spec_split(raw@, '\n')[k]).len()
                > 0 ==> rfc3339_instant(spec_date_token(spec_split(raw@, '\n')[k])) is Some)),
        r matches Ok(v) ==> {
            &&& v@.len() == spec_raw_pieces(raw@).len()
            &&& forall|k: int|
                0 <= k < v@.len() ==> {
                    let p = spec_raw_pieces(raw@)[k];
                    &&& rfc3339_instant(spec_date_token(p)) == Some(
                        ((#[trigger] v@[k]).secs, v@[k].nanos),
                    )
                    &&& v@[k].line@ == spec_line_rest(p, timestamps)
                    &&& v@[k].pod.name@ == pod.name@
                    &&& v@[k].pod.namespace@ == pod.namespace@
                    &&& v@[k].pod.color == pod.color
                }
        },
        r matches Err(e) ==> e is LogError,
{
    let pieces = split_char(raw, '\n');
    let ghost all = spec_split(raw@, '\n');
    let mut entries: Vec<LogEntry> = Vec::new();
    proof {
        reveal(Seq::filter);
        assert(all.take(0).filter(|p: Seq<char>| p.len() > 0).len() == 0);
    }
    let mut i: usize = 0;
    while i < pieces.len()
        invariant
            0 <= i <= pieces@.len(),
            all == spec_split(raw@, '\n'),
            pieces@.map_values(|p: String| p@) == all,
            forall|k: int|
                0 <= k < i ==> ((#[trigger] all[k]).len() > 0 ==> rfc3339_instant(
                    spec_date_token(all[k]),
                ) is Some),
            entries@.len() == all.take(i as int).filter(|p: Seq<char>| p.len() > 0).len(),
            forall|k: int|
                0 <= k < entries@.len() ==> {
                    let p = all.take(i as int).filter(|p: Seq<char>| p.len() > 0)[k];
                    &&& rfc3339_instant(spec_date_token(p)) == Some(
                        ((#[trigger] entries@[k]).secs, entries@[k].nanos),
                    )
                    &&& entries@[k].line@ == spec_line_rest(p, timestamps)
                    &&& entries@[k].pod.name@ == pod.name@
                    &&& entries@[k].pod.namespace@ == pod.namespace@
                    &&& entries@[k].pod.color == pod.color
                },
        decreases pieces@.len() - i,
    {
        let ghost fpre = all.take(i as int).filter(|p: Seq<char>| p.len() > 0);
        let piece = &pieces[i];
        let n = piece.as_str().unicode_len();
        proof {
            assert(pieces@.map_values(|p: String| p@)[i as int] == all[i as int]);
            assert(all.take(i as int + 1).drop_last() =~= all.take(i as int));
            assert(all.take(i as int + 1).last() == all[i as int]);
        }
        if n > 0 {
            let mut j: usize = 0;
            while j < n && piece.as_str().get_char(j) != ' '
                invariant
                    0 <= j <= n,
                    n == piece@.len(),
                    forall|k: int| 0 <= k < j ==> piece@[k] != ' ',
                decreases n - j,
            {
                j = j + 1;
            }
            proof {
                lemma_find_sep_at(piece@, ' ', j as int);
            }
            let token = piece.as_str().substring_char(0, j);
            let stamp = match parse_rfc3339(token) {
                Ok(t) => t,
                Err(e) => {
                    return Err(e);
                },
            };
            let line: String = if timestamps {
                piece.clone()
            } else if j < n {
                piece.as_str().substring_char(j + 1, n).to_owned()
            } else {
                String::new()
            };
            let entry = LogEntry { secs: stamp.0, nanos: stamp.1, line, pod: pod.clone() };
            let ghost prev = entries@;
            entries.push(entry);
            proof {
                reveal(Seq::filter);
                assert(all.take(i as int + 1).filter(|p: Seq<char>| p.len() > 0) =~= fpre.push(
                    all[i as int],
                ));
                assert forall|k: int| 0 <= k < entries@.len() implies {
                    let p = all.take(i as int + 1).filter(|p: Seq<char>| p.len() > 0)[k];
                    &&& rfc3339_instant(spec_date_token(p)) == Some(
                        ((#[trigger] entries@[k]).secs, entries@[k].nanos),
                    )
                    &&& entries@[k].line@ == spec_line_rest(p, timestamps)
                    &&& entries@[k].pod.name@ == pod.name@
                    &&& entries@[k].pod.namespace@ == pod.namespace@
                    &&& entries@[k].pod.color == pod.color
                } by {
                    if k < entries@.len() - 1 {
                        assert(entries@[k] == prev[k]);
                        assert(all.take(i as int + 1).filter(|p: Seq<char>| p.len() > 0)[k]
                            == fpre[k]);
                    }
                }
            }
        } else {
            proof {
                reveal(Seq::filter);
                assert(all.take(i as int + 1).filter(|p: Seq<char>| p.len() > 0) =~= fpre);
            }
        }
        i = i + 1;
    }
    proof {
        assert(all.take(pieces@.len() as int) =~= all);
    }
    Ok(entries)
}

/// Chronological order on entries: by seconds, then by nanoseconds.
pub open spec fn le_time(a: LogEntry, b: LogEntry) -> bool {
    a.secs < b.secs || (a.secs == b.secs && a.nanos <= b.nanos)
}

/// Whether the entries stand in chronological order.
pub open spec fn sorted_by_time(s: Seq<LogEntry>) -> bool {
    forall|i: int, j: int| 0 <= i < j < s.len() ==> le_time(#[trigger] s[i], #[trigger] s[j])
}

/// Chronological order, decided.
fn le_time_exec(a: &LogEntry, b: &LogEntry) -> (r: bool)
    ensures
        r == le_time(*a, *b),
{
    if a.secs < b.secs {
        true
    } else if a.secs == b.secs {
        a.nanos <= b.nanos
    } else {
        false
    }
}

/// Inserting anywhere adds exactly one occurrence.
proof fn lemma_insert_to_multiset(s: Seq<LogEntry>, j: int, x: LogEntry)
    requires
        0 <= j <= s.len(),
    ensures
        s.insert(j, x).to_multiset() =~= s.to_multiset().insert(x),
{
    broadcast use vstd::seq_lib::group_to_multiset_ensures;

    let t = s.insert(j, x);
    assert(t.remove(j) =~= s);
    assert(t[j] == x);
    assert(s.to_multiset() =~= t.to_multiset().remove(x));
    assert(t.contains(x));
    assert(t.to_multiset().count(x) > 0);
    assert forall|y: LogEntry| t.to_multiset().count(y) == s.to_multiset().insert(x).count(
        y,
    ) by {
        if y == x {
            assert(t.to_multiset().remove(x).count(x) == t.to_multiset().count(x) - 1);
        } else {
            assert(t.to_multiset().remove(x).count(y) == t.to_multiset().count(y));
        }
    }
    assert(t.to_multiset() =~= s.to_multiset().insert(x));
}

/// Sorts the entries chronologically (by seconds, then nanoseconds): the
/// global cross-pod ordering applied before first display. The entries are
/// exactly those given, rearranged.
pub fn sort_log_lines(lines: &mut Vec<LogEntry>)
    ensures
        sorted_by_time(final(lines)@),
        final(lines)@.to_multiset() == old(lines)@.to_multiset(),
{
    broadcast use vstd::seq_lib::group_to_multiset_ensures;

    if lines.len() <= 1 {
        return ;
    }
    let mut i: usize = 1;
    while i < lines.len()
        invariant
            1 <= i <= lines@.len(),
            lines@.len() == old(lines)@.len(),
            sorted_by_time(lines@.take(i as int)),
            lines@.to_multiset() == old(lines)@.to_multiset(),
        decreases lines@.len() - i,
    {
        broadcast use vstd::seq_lib::group_to_multiset_ensures;

        let ghost pre = lines@;
        let x = lines.remove(i);
        let ghost mid = lines@;
        proof {
            assert(mid.take(i as int) =~= pre.take(i as int));
            assert(pre.contains(pre[i as int])) by {
                assert(pre[i as int] == pre[i as int]);
            }
        }
        let mut j: usize = i;
        while j > 0 && !le_time_exec(&lines[j - 1], &x)
            invariant
                0 <= j <= i,
                i < mid.len() + 1,
                i <= mid.len(),
                lines@ == mid,
                sorted_by_time(mid.take(i as int)),
                forall|k: int| j <= k < i ==> !le_time(#[trigger] mid[k], x),
            decreases j,
        {
            j = j - 1;
        }
        lines.insert(j, x);
        proof {
            lemma_insert_to_multiset(mid, j as int, x);
            assert(mid.to_multiset() == pre.to_multiset().remove(pre[i as int]));
            assert(pre.to_multiset().count(pre[i as int]) > 0);
            assert forall|y: LogEntry|
                pre.to_multiset().remove(x).insert(x).count(y) == pre.to_multiset().count(y) by {
                if y == x {
                    assert(pre.to_multiset().remove(x).count(x) == pre.to_multiset().count(x) - 1);
                } else {
                    assert(pre.to_multiset().remove(x).count(y) == pre.to_multiset().count(y));
                }
            }
            assert(lines@.to_multiset() =~= pre.to_multiset());
            let t = lines@;
            assert forall|a: int, b: int|
                0 <= a < b < i + 1 implies le_time(#[trigger] t[a], #[trigger] t[b]) by {
                if b < j {
                    assert(t[a] == mid[a] && t[b] == mid[b]);
                } else if b == j {
                    assert(t[b] == x);
                    if a < j {
                        assert(t[a] == mid[a]);
                        assert(le_time(mid[j - 1], x));
                        if a < j - 1 {
                            assert(le_time(mid[a], mid[j - 1]));
                        }
                    }
                } else {
                    assert(t[b] == mid[b - 1]);
                    if a < j {
                        assert(t[a] == mid[a]);
                        assert(le_time(mid[a], mid[b - 1]));
                    } else if a == j {
                        assert(t[a] == x);
                        assert(!le_time(mid[b - 1], x));
                    } else {
                        assert(t[a] == mid[a - 1]);
                        assert(le_time(mid[a - 1], mid[b - 1]));
                    }
                }
            }
            assert(sorted_by_time(lines@.take(i as int + 1)));
        }
        i = i + 1;
    }
    proof {
        assert(lines@.take(lines@.len() as int) =~= lines@);
    }
}

} // verus!
