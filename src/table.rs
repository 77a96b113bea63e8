//! The textual dictionary format. A table is a sequence of records, one per
//! line (`'\n'`). A record is a source phrase, a tab, and one or more
//! candidate replacements separated by spaces; the first candidate is the one
//! used. Blank lines are skipped. A record without a tab, with an empty
//! source phrase or with an empty first candidate makes the whole table
//! malformed, and the error names its line (counted from one). When a source
//! phrase appears in two records, the first record wins.
use vstd::prelude::*;
use crate::dict::{Dictionary, DictionaryError, phrases_fit};
use crate::text::chars_of;

verus! {

/// Where a table's reading stands after a prefix of its text.
pub struct ReadState {
    pub table: Map<Seq<char>, Seq<char>>,
    pub max: nat,
    pub source: Seq<char>,
    pub target: Seq<char>,
    /// 0 while in the source phrase, 1 in the first candidate, 2 after it.
    pub field: nat,
    /// The line being read, counted from one.
    pub line: nat,
    pub failed: bool,
}

/// The state before any character is read.
pub open spec fn start_state() -> ReadState {
    ReadState {
        table: Map::empty(),
        max: 0,
        source: Seq::empty(),
        target: Seq::empty(),
        field: 0,
        line: 1,
        failed: false,
    }
}

/// `t` with phrase `s` replaced by `r`, unless `s` is already there.
pub open spec fn add_first(t: Map<Seq<char>, Seq<char>>, s: Seq<char>, r: Seq<char>) -> Map<Seq<char>, Seq<char>> {
    if t.contains_key(s) {
        t
    } else {
        t.insert(s, r)
    }
}

/// The state once the record being read has ended.
pub open spec fn end_record(st: ReadState) -> ReadState {
    if st.failed || (st.field == 0 && st.source.len() == 0) {
        st
    } else if st.field == 0 || st.source.len() == 0 || st.target.len() == 0 {
        ReadState { failed: true, ..st }
    } else {
        ReadState {
            table: add_first(st.table, st.source, st.target),
            max: if st.table.contains_key(st.source) || st.source.len() <= st.max {
                st.max
            } else {
                st.source.len()
            },
            source: Seq::empty(),
            target: Seq::empty(),
            field: 0,
            ..st
        }
    }
}

/// The state after reading character `c`.
pub open spec fn step(st: ReadState, c: char) -> ReadState {
    if st.failed {
        st
    } else if c == '\n' {
        let e = end_record(st);
        if e.failed {
            e
        } else {
            ReadState { line: e.line + 1, ..e }
        }
    } else if st.field == 0 {
        if c == '\t' {
            ReadState { field: 1, ..st }
        } else {
            ReadState { source: st.source.push(c), ..st }
        }
    } else if st.field == 1 {
        if c == ' ' {
            ReadState { field: 2, ..st }
        } else {
            ReadState { target: st.target.push(c), ..st }
        }
    } else {
        st
    }
}

/// The state after reading all of `s`.
pub open spec fn read_state(s: Seq<char>) -> ReadState
    decreases s.len(),
{
    if s.len() == 0 {
        start_state()
    } else {
        step(read_state(s.drop_last()), s.last())
    }
}

/// The outcome of reading table text `s`: its phrase table and longest phrase
/// length, or the line of the first malformed record.
pub open spec fn read_table(s: Seq<char>) -> Result<(Map<Seq<char>, Seq<char>>, nat), nat> {
    let e = end_record(read_state(s));
    if e.failed {
        Err(e.line)
    } else {
        Ok((e.table, e.max))
    }
}

/// Ends the record held in `source` and `target` (`field` as in a
/// `ReadState`): a complete record goes into `dict`. `false` when the record
/// is malformed.
fn finish_record(dict: &mut Dictionary, source: &mut Vec<char>, target: &mut Vec<char>, field: u8) -> (ok: bool)
    requires
        old(dict).wf(),
        field <= 2,
    ensures
        ({
            let e = end_record(
                ReadState {
                    table: old(dict).table(),
                    max: old(dict).max_len(),
                    source: old(source)@,
                    target: old(target)@,
                    field: field as nat,
                    line: 0,
                    failed: false,
                },
            );
            &&& ok == !e.failed
            &&& ok ==> {
                &&& final(dict).wf()
                &&& final(dict).table() == e.table
                &&& final(dict).max_len() == e.max
                &&& final(source)@ == e.source
                &&& final(target)@ == e.target
            }
        }),
{
    if field == 0 && source.len() == 0 {
        return true;
    }
    if field == 0 || source.len() == 0 || target.len() == 0 {
        return false;
    }
    let mut s: Vec<char> = Vec::new();
    let mut t: Vec<char> = Vec::new();
    std::mem::swap(source, &mut s);
    std::mem::swap(target, &mut t);
    let ghost ss = s@;
    let ghost tt = t@;
    assert(ss == old(source)@);
    assert(source@ == Seq::<char>::empty());
    let r = dict.insert(s, t);
    true
}

/// Once a reading has failed, reading on changes nothing.
proof fn lemma_failed_stays(s: Seq<char>, i: int)
    requires
        0 <= i <= s.len(),
        read_state(s.subrange(0, i)).failed,
    ensures
        read_state(s) == read_state(s.subrange(0, i)),
    decreases s.len() - i,
{
    if i < s.len() {
        assert(s.subrange(0, i + 1).drop_last() =~= s.subrange(0, i));
        lemma_failed_stays(s, i + 1);
    } else {
        assert(s.subrange(0, i) =~= s);
    }
}

/// Reads a dictionary from table text `text` (the format is described at the
/// top of this module).
pub fn load_chars(text: &[char]) -> (r: Result<Dictionary, DictionaryError>)
    ensures
        match read_table(text@) {
            Ok((t, max)) => r is Ok && r->Ok_0.wf() && r->Ok_0.table() == t && r->Ok_0.max_len() == max,
            Err(line) => r is Err && r->Err_0 == DictionaryError::Malformed(line as usize),
        },
{
    let n = text.len();
    let mut dict = Dictionary::new();
    let mut source: Vec<char> = Vec::new();
    let mut target: Vec<char> = Vec::new();
    let mut field: u8 = 0;
    // the number of line breaks read so far
    let mut newlines: usize = 0;
    let mut i: usize = 0;
    while i < n
        invariant
            n == text@.len(),
            i <= n,
            newlines + (if field == 0 && source@.len() == 0 { 0int } else { 1int }) <= i,
            dict.wf(),
            ({
                let st = read_state(text@.subrange(0, i as int));
                &&& !st.failed
                &&& dict.table() == st.table
                &&& dict.max_len() == st.max
                &&& source@ == st.source
                &&& target@ == st.target
                &&& field as nat == st.field
                &&& field <= 2
                &&& newlines + 1 == st.line
            }),
        decreases n - i,
    {
        let ghost st = read_state(text@.subrange(0, i as int));
        assert(text@.subrange(0, i + 1).drop_last() =~= text@.subrange(0, i as int));
        assert(text@.subrange(0, i + 1).last() == text@[i as int]);
        let c = text[i];
        if c == '\n' {
            if !finish_record(&mut dict, &mut source, &mut target, field) {
                proof {
                    lemma_failed_stays(text@, i + 1);
                }
                return Err(DictionaryError::Malformed(newlines + 1));
            }
            field = 0;
            newlines = newlines + 1;
        } else if field == 0 {
            if c == '\t' {
                field = 1;
            } else {
                source.push(c);
            }
        } else if field == 1 {
            if c == ' ' {
                field = 2;
            } else {
                target.push(c);
            }
        }
        i = i + 1;
    }
    assert(text@.subrange(0, n as int) =~= text@);
    if !finish_record(&mut dict, &mut source, &mut target, field) {
        return Err(DictionaryError::Malformed(newlines + 1));
    }
    Ok(dict)
}

/// A table read from any text has non-empty phrases no longer than the
/// recorded longest length.
pub proof fn lemma_read_fits(s: Seq<char>)
    ensures
        read_table(s) is Ok ==> phrases_fit(read_table(s)->Ok_0.0, read_table(s)->Ok_0.1),
{
    lemma_read_state_fits(s);
}

proof fn lemma_read_state_fits(s: Seq<char>)
    ensures
        phrases_fit(read_state(s).table, read_state(s).max),
        phrases_fit(end_record(read_state(s)).table, end_record(read_state(s)).max),
    decreases s.len(),
{
    if s.len() > 0 {
        lemma_read_state_fits(s.drop_last());
    }
    let st = read_state(s);
    let e = end_record(st);
    assert forall|k: Seq<char>| #[trigger] e.table.contains_key(k) implies 1 <= k.len() <= e.max by {
        if !st.table.contains_key(k) {
            assert(k == st.source);
        }
    }
}

/// Reads a dictionary from table text `source`.
pub fn load(source: &str) -> (r: Result<Dictionary, DictionaryError>)
    ensures
        match read_table(source@) {
            Ok((t, max)) => r is Ok && r->Ok_0.wf() && r->Ok_0.table() == t && r->Ok_0.max_len() == max,
            Err(line) => r is Err && r->Err_0 == DictionaryError::Malformed(line as usize),
        },
{
    let cs = chars_of(source);
    load_chars(cs.as_slice())
}

} // verus!
