use vstd::prelude::*;
use crate::clock::{parse_instant, parsed_instant};
use crate::numeral::{parse_price, price_of};
use crate::simulate::{ascending, not_later};
use crate::text::{has_prefix, starts_with, strip, stripped, Strip};
use crate::types::{all_wf, Candle, NANOS_PER_SECOND, TIME_MAX, TIME_MIN};

verus! {

/// Seconds added to every instant read, to bring the source's clock to the
/// one the rules are stated in.
pub const SOURCE_OFFSET: i64 = 3_600;

/// The records that the csv crate reads from `bytes` as comma-separated text
/// without a header row and with rows of any number of fields: one entry per
/// record, in order, holding the record's fields, or nothing where the csv
/// crate reports the record as an error.
pub uninterp spec fn csv_rows(bytes: Seq<u8>) -> Seq<Option<Seq<Seq<char>>>>;

/// Reads the records of `bytes` with the csv crate: a `ReaderBuilder` with
/// `has_headers(false)` and `flexible(true)`, and `records()` on its reader.
/// Each record comes back as its fields, each field as its characters; a
/// record that the reader reports as an error comes back as `None`.
#[verifier::external_body]
fn read_rows(bytes: &[u8]) -> (r: Vec<Option<Vec<Vec<char>>>>)
    ensures
        r.deep_view() == csv_rows(bytes@),
{
    let mut reader = csv::ReaderBuilder::new().has_headers(false).flexible(true).from_reader(bytes);
    reader.records().map(
        |row| row.ok().map(|fields| fields.iter().map(|field| field.chars().collect()).collect()),
    ).collect()
}

/// The instant that a text holds, in seconds and the nanoseconds behind
/// them: white space is taken off its ends, and the patterns for date and
/// time to the minute, to the second, and to a fraction of a second are tried
/// in this order. The first that fits gives the instant.
pub open spec fn time_of(text: Seq<char>) -> Option<(i64, u32)> {
    let t = stripped(text, Strip::Space);
    if parsed_instant(t, "%Y-%m-%d %H:%M"@) is Some {
        parsed_instant(t, "%Y-%m-%d %H:%M"@)
    } else if parsed_instant(t, "%Y-%m-%d %H:%M:%S"@) is Some {
        parsed_instant(t, "%Y-%m-%d %H:%M:%S"@)
    } else {
        parsed_instant(t, "%Y-%m-%d %H:%M:%S%.f"@)
    }
}

/// Reads the instant that a text holds.
pub fn parse_time(raw: &[char]) -> (r: Option<(i64, u32)>)
    ensures
        r == time_of(raw@),
{
    let text: &[char] = strip(raw, Strip::Space);
    let to_minute: Option<(i64, u32)> = parse_instant(text, "%Y-%m-%d %H:%M");
    if to_minute.is_some() {
        return to_minute;
    }
    let to_second: Option<(i64, u32)> = parse_instant(text, "%Y-%m-%d %H:%M:%S");
    if to_second.is_some() {
        return to_second;
    }
    parse_instant(text, "%Y-%m-%d %H:%M:%S%.f")
}

/// The nanoseconds that an instant keeps when the source offset is added to
/// it. A count of a full second or more marks a leap second, which the offset
/// leaves behind: the instant keeps what lies beyond the full second.
pub open spec fn fraction_kept(nanos: u32) -> u32 {
    if nanos >= 1_000_000_000 {
        (nanos - 1_000_000_000) as u32
    } else {
        nanos
    }
}

/// The candle that a record holds. A record holds none where it has fewer
/// than five fields; where its first field, trimmed, is empty or begins with
/// the banner `Downloaded from`; where that field, quotes taken off, holds no
/// instant, or the instant moved by the source offset has no four-digit year;
/// or where one of the next four fields holds no price.
pub open spec fn candle_of(row: Seq<Seq<char>>) -> Option<Candle> {
    if row.len() < 5 {
        None
    } else {
        let raw_time = stripped(row[0], Strip::Space);
        if raw_time.len() == 0 || has_prefix(raw_time, "Downloaded from"@) {
            None
        } else {
            match (
                time_of(stripped(raw_time, Strip::Quote)),
                price_of(row[1]),
                price_of(row[2]),
                price_of(row[3]),
                price_of(row[4]),
            ) {
                (Some((t, nanos)), Some(open), Some(high), Some(low), Some(close)) => if TIME_MIN
                    <= t + 3_600 <= TIME_MAX && nanos < 2_000_000_000 {
                    Some(
                        Candle {
                            time: (t + 3_600) as i64,
                            nanos: fraction_kept(nanos),
                            open,
                            high,
                            low,
                            close,
                        },
                    )
                } else {
                    None
                },
                _ => None,
            }
        }
    }
}

/// The candles of the first `upto` records, in the order of the records.
pub open spec fn candles_of(rows: Seq<Option<Seq<Seq<char>>>>, upto: int) -> Seq<Candle>
    decreases upto,
{
    if upto <= 0 {
        Seq::empty()
    } else {
        let before = candles_of(rows, upto - 1);
        match rows[upto - 1] {
            Some(row) => match candle_of(row) {
                Some(c) => before.push(c),
                None => before,
            },
            None => before,
        }
    }
}

/// The candles that the bytes hold, in the order of their records.
pub open spec fn loaded(bytes: Seq<u8>) -> Seq<Candle> {
    candles_of(csv_rows(bytes), csv_rows(bytes).len() as int)
}

/// Reads the candle that a record holds.
pub fn parse_row(fields: &Vec<Vec<char>>) -> (r: Option<Candle>)
    ensures
        r == candle_of(fields.deep_view()),
        r matches Some(c) ==> c.wf(),
{
    proof {
        let row = fields.deep_view();
        assert(row.len() == fields@.len());
        assert forall|k: int| 0 <= k < row.len() implies #[trigger] row[k] == fields@[k]@ by {
            assert(fields@[k].deep_view() =~= fields@[k]@);
        }
    }
    if fields.len() < 5 {
        return None;
    }
    let raw_time: &[char] = strip(fields[0].as_slice(), Strip::Space);
    if raw_time.len() == 0 || starts_with(raw_time, "Downloaded from") {
        return None;
    }
    let (time, nanos) = match parse_time(strip(raw_time, Strip::Quote)) {
        Some(at) => at,
        None => {
            return None;
        },
    };
    let open: i64 = match parse_price(fields[1].as_slice()) {
        Some(p) => p,
        None => {
            return None;
        },
    };
    let high: i64 = match parse_price(fields[2].as_slice()) {
        Some(p) => p,
        None => {
            return None;
        },
    };
    let low: i64 = match parse_price(fields[3].as_slice()) {
        Some(p) => p,
        None => {
            return None;
        },
    };
    let close: i64 = match parse_price(fields[4].as_slice()) {
        Some(p) => p,
        None => {
            return None;
        },
    };
    if time < TIME_MIN - SOURCE_OFFSET || time > TIME_MAX - SOURCE_OFFSET || nanos >= 2
        * NANOS_PER_SECOND {
        return None;
    }
    let kept: u32 = if nanos >= NANOS_PER_SECOND { nanos - NANOS_PER_SECOND } else { nanos };
    Some(Candle { time: time + SOURCE_OFFSET, nanos: kept, open, high, low, close })
}

/// Reads the candles that delimited text holds, in the order of its records.
/// Records that hold no candle are passed over.
pub fn parse_csv(bytes: &[u8]) -> (r: Vec<Candle>)
    ensures
        r@ == loaded(bytes@),
        all_wf(r@),
{
    let rows: Vec<Option<Vec<Vec<char>>>> = read_rows(bytes);
    let n: usize = rows.len();
    let mut candles: Vec<Candle> = Vec::new();
    let mut i: usize = 0;
    while i < n
        invariant
            i <= n,
            n == rows@.len(),
            rows.deep_view() == csv_rows(bytes@),
            candles@ == candles_of(csv_rows(bytes@), i as int),
            all_wf(candles@),
        decreases n - i,
    {
        assert(rows.deep_view()[i as int] == rows@[i as int].deep_view());
        match &rows[i] {
            Some(fields) => {
                match parse_row(fields) {
                    Some(c) => {
                        candles.push(c);
                    },
                    None => {},
                }
            },
            None => {},
        }
        i = i + 1;
    }
    assert(rows.deep_view().len() == n);
    candles
}

/// `sorted` with `c` put in behind every candle that is not later than `c`.
pub open spec fn insert_by_time(sorted: Seq<Candle>, c: Candle) -> Seq<Candle>
    decreases sorted.len(),
{
    if sorted.len() == 0 || not_later(sorted.last(), c) {
        sorted.push(c)
    } else {
        insert_by_time(sorted.drop_last(), c).push(sorted.last())
    }
}

/// The candles in ascending order of time, candles of equal time in the
/// order in which they stood.
pub open spec fn sorted_by_time(s: Seq<Candle>) -> Seq<Candle>
    decreases s.len(),
{
    if s.len() == 0 {
        s
    } else {
        insert_by_time(sorted_by_time(s.drop_last()), s.last())
    }
}

/// Sorts the candles with std's `sort_by_key` on the pair of seconds and
/// nanoseconds, a stable sort: the candles come out in ascending order of
/// time, and candles of equal time keep the order in which they stood.
#[verifier::external_body]
fn sort_by_time(candles: &mut Vec<Candle>)
    ensures
        final(candles)@ == sorted_by_time(old(candles)@),
{
    candles.sort_by_key(|c| (c.time, c.nanos));
}

proof fn lemma_insert_by_time(sorted: Seq<Candle>, c: Candle)
    requires
        ascending(sorted),
    ensures
        ascending(insert_by_time(sorted, c)),
        insert_by_time(sorted, c).len() == sorted.len() + 1,
        insert_by_time(sorted, c).to_multiset() == sorted.to_multiset().insert(c),
        forall|k: int|
            0 <= k < insert_by_time(sorted, c).len() ==> (#[trigger] insert_by_time(sorted, c)[k]
                == c || sorted.contains(insert_by_time(sorted, c)[k])),
    decreases sorted.len(),
{
    broadcast use vstd::seq_lib::group_to_multiset_ensures;

    let out = insert_by_time(sorted, c);
    if sorted.len() == 0 || not_later(sorted.last(), c) {
        assert forall|i: int, j: int| 0 <= i <= j < out.len() implies not_later(
            out[i],
            out[j],
        ) by {
            if j < sorted.len() {
                assert(out[i] == sorted[i] && out[j] == sorted[j]);
            } else if i < sorted.len() {
                assert(out[i] == sorted[i]);
                assert(not_later(sorted[i], sorted[sorted.len() - 1]));
            }
        }
        assert forall|k: int| 0 <= k < out.len() implies (#[trigger] out[k] == c
            || sorted.contains(out[k])) by {
            if k < sorted.len() {
                assert(out[k] == sorted[k]);
            }
        }
    } else {
        let head = sorted.drop_last();
        let last = sorted.last();
        lemma_insert_by_time(head, c);
        let inner = insert_by_time(head, c);
        assert(sorted == head.push(last));
        assert forall|i: int, j: int| 0 <= i <= j < out.len() implies not_later(
            out[i],
            out[j],
        ) by {
            if j < inner.len() {
                assert(out[i] == inner[i] && out[j] == inner[j]);
            } else if i < inner.len() {
                assert(out[i] == inner[i]);
                if inner[i] != c {
                    assert(head.contains(inner[i]));
                    let w = choose|w: int| 0 <= w < head.len() && head[w] == inner[i];
                    assert(sorted[w] == head[w]);
                    assert(not_later(sorted[w], sorted[sorted.len() - 1]));
                }
            }
        }
        assert forall|k: int| 0 <= k < out.len() implies (#[trigger] out[k] == c
            || sorted.contains(out[k])) by {
            if k < inner.len() {
                assert(out[k] == inner[k]);
                if inner[k] != c {
                    assert(head.contains(inner[k]));
                    let w = choose|w: int| 0 <= w < head.len() && head[w] == inner[k];
                    assert(sorted[w] == head[w]);
                }
            } else {
                assert(out[k] == sorted[sorted.len() - 1]);
            }
        }
        assert(out.to_multiset() =~= sorted.to_multiset().insert(c));
    }
}

/// The sorted candles ascend in time, are as many as before and are the same
/// candles, each as often as before.
pub proof fn lemma_sorted_by_time(s: Seq<Candle>)
    ensures
        ascending(sorted_by_time(s)),
        sorted_by_time(s).len() == s.len(),
        sorted_by_time(s).to_multiset() == s.to_multiset(),
        all_wf(s) ==> all_wf(sorted_by_time(s)),
        forall|k: int|
            0 <= k < s.len() ==> s.contains(#[trigger] sorted_by_time(s)[k]),
    decreases s.len(),
{
    broadcast use vstd::seq_lib::group_to_multiset_ensures;

    if s.len() > 0 {
        let head = s.drop_last();
        lemma_sorted_by_time(head);
        lemma_insert_by_time(sorted_by_time(head), s.last());
        let inner = sorted_by_time(head);
        let out = sorted_by_time(s);
        assert(s == head.push(s.last()));
        assert forall|k: int| 0 <= k < s.len() implies s.contains(#[trigger] out[k]) by {
            if out[k] == s.last() {
                assert(s[s.len() - 1] == s.last());
            } else {
                assert(inner.contains(out[k]));
                let w = choose|w: int| 0 <= w < inner.len() && inner[w] == out[k];
                assert(head.contains(inner[w]));
                let u = choose|u: int| 0 <= u < head.len() && head[u] == inner[w];
                assert(s[u] == head[u]);
            }
        }
        if all_wf(s) {
            assert forall|k: int| 0 <= k < out.len() implies (#[trigger] out[k]).wf() by {
                assert(s.contains(out[k]));
                let u = choose|u: int| 0 <= u < s.len() && s[u] == out[k];
                assert(s[u].wf());
            }
        }
    }
}

/// Puts the candles in ascending order of time; candles of equal time keep
/// their order.
pub fn sort_candles(candles: &mut Vec<Candle>)
    ensures
        final(candles)@ == sorted_by_time(old(candles)@),
        ascending(final(candles)@),
        final(candles)@.len() == old(candles)@.len(),
        final(candles)@.to_multiset() == old(candles)@.to_multiset(),
        all_wf(old(candles)@) ==> all_wf(final(candles)@),
{
    proof {
        lemma_sorted_by_time(candles@);
    }
    sort_by_time(candles);
}

} // verus!
