//! Opt-in local dictation history: the stored row shape, its IPC-facing
//! rename, row ids, the import of the pre-database file, and the
//! retention-window arithmetic.
use vstd::prelude::*;
use vstd::string::StringExecFns;
use crate::llm::{decimal, decimal_string, digit_char};
use crate::strs::{split_whitespace, to_chars, words};

verus! {

/// Milliseconds in one day.
pub const DAY_MS: i64 = 86_400_000;

/// One history row as stored.
#[derive(Debug, Clone)]
pub struct HistoryRow {
    pub id: String,
    pub at: i64,
    pub text: String,
    pub raw_text: String,
    pub mode_id: String,
    pub app_name: Option<String>,
    pub duration_ms: Option<i64>,
    pub word_count: i64,
    pub used_ai: bool,
}

/// One dictation as shown in the history view.
#[derive(Debug, Clone)]
pub struct HistoryEntry {
    pub id: String,
    /// Unix epoch milliseconds.
    pub at: i64,
    pub text: String,
    pub raw_text: String,
    pub mode_id: String,
    pub app_name: Option<String>,
    pub duration_ms: Option<i64>,
    pub word_count: i64,
    pub used_ai: bool,
}

impl From<HistoryRow> for HistoryEntry {
    fn from(row: HistoryRow) -> (entry: Self) {
        HistoryEntry {
            id: row.id,
            at: row.at,
            text: row.text,
            raw_text: row.raw_text,
            mode_id: row.mode_id,
            app_name: row.app_name,
            duration_ms: row.duration_ms,
            word_count: row.word_count,
            used_ai: row.used_ai,
        }
    }
}

impl vstd::std_specs::convert::FromSpecImpl<HistoryRow> for HistoryEntry {
    open spec fn obeys_from_spec() -> bool {
        true
    }

    open spec fn from_spec(row: HistoryRow) -> HistoryEntry {
        HistoryEntry {
            id: row.id,
            at: row.at,
            text: row.text,
            raw_text: row.raw_text,
            mode_id: row.mode_id,
            app_name: row.app_name,
            duration_ms: row.duration_ms,
            word_count: row.word_count,
            used_ai: row.used_ai,
        }
    }
}

/// The earliest timestamp a history entry may keep, given `now_ms` and a
/// retention of `days`; `None` when `days == 0` (keep forever).
pub fn retention_cutoff_ms(now_ms: i64, days: u32) -> (cutoff: Option<i64>)
    requires
        now_ms - days * DAY_MS >= i64::MIN,
    ensures
        days == 0 ==> cutoff is None,
        days != 0 ==> cutoff == Some((now_ms - days * DAY_MS) as i64),
{
    if days == 0 {
        return None;
    }
    Some(now_ms - (days as i64) * DAY_MS)
}

/// `n` in decimal, with a minus sign when negative.
pub open spec fn signed_decimal(n: int) -> Seq<char> {
    if n < 0 {
        seq!['-'] + decimal((-n) as nat)
    } else {
        decimal(n as nat)
    }
}

/// `"{at}-{seq}"`.
pub open spec fn history_id_spec(at: int, seq: nat) -> Seq<char> {
    signed_decimal(at) + seq!['-'] + decimal(seq)
}

proof fn lemma_decimal_shape(n: nat)
    ensures
        decimal(n).len() >= 1,
        n >= 10 ==> decimal(n).len() >= 2,
        forall|i: int| 0 <= i < decimal(n).len() ==> #[trigger] decimal(n)[i] != '-',
    decreases n,
{
    if n >= 10 {
        lemma_decimal_shape(n / 10);
        assert forall|i: int| 0 <= i < decimal(n).len() implies #[trigger] decimal(n)[i] != '-' by {
            if i < decimal(n / 10).len() {
                assert(decimal(n)[i] == decimal(n / 10)[i]);
            }
        }
    }
}

proof fn lemma_decimal_injective(a: nat, b: nat)
    requires
        decimal(a) == decimal(b),
    ensures
        a == b,
    decreases a,
{
    lemma_decimal_shape(a);
    lemma_decimal_shape(b);
    if a >= 10 && b >= 10 {
        assert(decimal(a).last() == digit_char(a % 10));
        assert(decimal(b).last() == digit_char(b % 10));
        assert(a % 10 == b % 10);
        assert(decimal(a).drop_last() =~= decimal(a / 10));
        assert(decimal(b).drop_last() =~= decimal(b / 10));
        lemma_decimal_injective(a / 10, b / 10);
    } else if a < 10 && b < 10 {
        assert(decimal(a)[0] == digit_char(a));
        assert(decimal(b)[0] == digit_char(b));
    }
}

/// In `p1 + "-" + q1 == p2 + "-" + q2` where neither `q` holds a `-`, the
/// first parts have the same length.
proof fn lemma_split_at_last_dash(p1: Seq<char>, q1: Seq<char>, p2: Seq<char>, q2: Seq<char>)
    requires
        p1 + seq!['-'] + q1 == p2 + seq!['-'] + q2,
        forall|i: int| 0 <= i < q1.len() ==> #[trigger] q1[i] != '-',
    ensures
        p2.len() <= p1.len(),
{
    let x = p1 + seq!['-'] + q1;
    let y = p2 + seq!['-'] + q2;
    assert(x.len() == y.len());
    if p1.len() < p2.len() {
        let k = p2.len() as int;
        let h = p1 + seq!['-'];
        assert(y[k] == (p2 + seq!['-'])[k]);
        assert(y[k] == '-');
        assert(x == h + q1);
        assert(k >= h.len() && k < x.len());
        assert(x[k] == q1[k - h.len()]);
    }
}

proof fn lemma_signed_decimal_injective(a: int, b: int)
    requires
        signed_decimal(a) == signed_decimal(b),
    ensures
        a == b,
{
    if a < 0 {
        lemma_decimal_shape((-a) as nat);
    }
    if b < 0 {
        lemma_decimal_shape((-b) as nat);
    }
    if a >= 0 {
        lemma_decimal_shape(a as nat);
    }
    if b >= 0 {
        lemma_decimal_shape(b as nat);
    }
    if a < 0 && b < 0 {
        assert(signed_decimal(a).drop_first() =~= decimal((-a) as nat));
        assert(signed_decimal(b).drop_first() =~= decimal((-b) as nat));
        lemma_decimal_injective((-a) as nat, (-b) as nat);
    } else if a >= 0 && b >= 0 {
        lemma_decimal_injective(a as nat, b as nat);
    } else if a < 0 {
        assert(signed_decimal(a)[0] == '-');
        assert(decimal(b as nat)[0] != '-');
    } else {
        assert(signed_decimal(b)[0] == '-');
        assert(decimal(a as nat)[0] != '-');
    }
}

/// Distinct appends get distinct ids: two ids are equal only when their
/// timestamps and sequence numbers are.
pub proof fn law_history_ids_are_distinct(at1: int, seq1: nat, at2: int, seq2: nat)
    requires
        history_id_spec(at1, seq1) == history_id_spec(at2, seq2),
    ensures
        at1 == at2,
        seq1 == seq2,
{
    let p1 = signed_decimal(at1);
    let p2 = signed_decimal(at2);
    let q1 = decimal(seq1);
    let q2 = decimal(seq2);
    let x = history_id_spec(at1, seq1);
    lemma_decimal_shape(seq1);
    lemma_decimal_shape(seq2);
    lemma_split_at_last_dash(p1, q1, p2, q2);
    lemma_split_at_last_dash(p2, q2, p1, q1);
    {
        assert(x.take(p1.len() as int) =~= p1);
        assert(history_id_spec(at2, seq2).take(p2.len() as int) =~= p2);
        assert(x.skip(p1.len() as int + 1) =~= q1);
        assert(history_id_spec(at2, seq2).skip(p2.len() as int + 1) =~= q2);
        lemma_signed_decimal_injective(at1, at2);
        lemma_decimal_injective(seq1, seq2);
    }
}

/// The id of an appended row: its timestamp and a sequence number that
/// tells apart two appends in the same millisecond, `"{at}-{seq}"`.
pub fn history_id(at: i64, seq: u64) -> (r: String)
    ensures
        r@ == history_id_spec(at as int, seq as nat),
{
    let mut s = if at < 0 {
        let mag: u64 = if at == i64::MIN {
            9223372036854775808u64
        } else {
            (-at) as u64
        };
        let mut m = String::from_str("-");
        let d = decimal_string(mag);
        m.append(d.as_str());
        proof {
            reveal_strlit("-");
        }
        m
    } else {
        decimal_string(at as u64)
    };
    s.append("-");
    let d = decimal_string(seq);
    s.append(d.as_str());
    proof {
        reveal_strlit("-");
    }
    s
}

/// One entry of the pre-database `history.json` file.
#[derive(Debug)]
pub struct LegacyHistoryEntry {
    pub id: String,
    pub raw: String,
    pub text: String,
    pub mode_id: String,
    pub polished: bool,
    pub at: i64,
}

/// The row a legacy entry becomes: no app name or duration (the old file
/// never kept them), its words counted, `polished` as whether AI ran.
pub fn legacy_row(entry: &LegacyHistoryEntry) -> (r: HistoryRow)
    ensures
        r.id == entry.id,
        r.at == entry.at,
        r.text == entry.text,
        r.raw_text == entry.raw,
        r.mode_id == entry.mode_id,
        r.app_name is None,
        r.duration_ms is None,
        r.word_count == words(entry.text@).len() as i64,
        r.used_ai == entry.polished,
{
    let v = to_chars(entry.text.as_str());
    let w = split_whitespace(v.as_slice());
    proof {
        assert(w@.map_values(|x: Vec<char>| x@).len() == w@.len());
    }
    let count = w.len() as i64;
    HistoryRow {
        id: entry.id.clone(),
        at: entry.at,
        text: entry.text.clone(),
        raw_text: entry.raw.clone(),
        mode_id: entry.mode_id.clone(),
        app_name: None,
        duration_ms: None,
        word_count: count,
        used_ai: entry.polished,
    }
}

} // verus!
