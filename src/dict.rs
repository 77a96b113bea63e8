//! Dictionary store: a table from source phrases to replacements, with a
//! longest-match lookup.
use vstd::prelude::*;
use vstd::hash_map::StringHashMap;
use crate::text::string_of;

verus! {

/// A phrase table, hashed by source phrase. Each source phrase occurs once;
/// when a phrase is offered twice, the first replacement offered is kept.
pub struct Dictionary {
    phrases: StringHashMap<Vec<char>>,
    max_len: usize,
    table: Ghost<Map<Seq<char>, Seq<char>>>,
}

/// Every phrase of `m` is non-empty and at most `max` characters long.
pub open spec fn phrases_fit(m: Map<Seq<char>, Seq<char>>, max: nat) -> bool {
    forall|k: Seq<char>| #[trigger] m.contains_key(k) ==> 1 <= k.len() <= max
}

/// Why a phrase could not be added to a dictionary.
#[derive(Debug, Clone, Copy, PartialEq, Eq, Structural)]
pub enum DictionaryError {
    /// The source phrase is empty.
    EmptySource,
    /// A record of a table's text is malformed; the line counts from one.
    Malformed(usize),
}

/// The characters `text[start..start + k]`.
fn phrase_at(text: &[char], start: usize, k: usize) -> (r: Vec<char>)
    requires
        start + k <= text@.len(),
    ensures
        r@ == text@.subrange(start as int, start + k),
{
    let n = text.len();
    let mut r: Vec<char> = Vec::new();
    let mut j: usize = 0;
    while j < k
        invariant
            n == text@.len(),
            j <= k,
            start + k <= text@.len(),
            r@ == text@.subrange(start as int, start + j),
        decreases k - j,
    {
        r.push(text[start + j]);
        j = j + 1;
        assert(r@ =~= text@.subrange(start as int, start + j));
    }
    r
}

/// `p` stands in `text` at `pos`.
pub open spec fn occurs_at(text: Seq<char>, pos: int, p: Seq<char>) -> bool {
    0 <= pos && pos + p.len() <= text.len() && text.subrange(pos, pos + p.len()) == p
}

/// The length of the longest phrase of `m` of at most `k` characters that
/// stands in `text` at `pos`; zero when there is none.
pub open spec fn match_len(m: Map<Seq<char>, Seq<char>>, text: Seq<char>, pos: int, k: nat) -> nat
    decreases k,
{
    if k == 0 {
        0
    } else if pos + k <= text.len() && m.contains_key(text.subrange(pos, pos + k)) {
        k
    } else {
        match_len(m, text, pos, (k - 1) as nat)
    }
}

impl Dictionary {
    /// The phrase table: source phrase to replacement.
    pub closed spec fn table(&self) -> Map<Seq<char>, Seq<char>> {
        self.table@
    }

    /// The length of the longest source phrase (zero for an empty dictionary).
    pub closed spec fn max_len(&self) -> nat {
        self.max_len as nat
    }

    /// The hashed phrases hold exactly the table, and its phrases fit the
    /// recorded longest length.
    pub closed spec fn wf(&self) -> bool {
        &&& phrases_fit(self.table@, self.max_len as nat)
        &&& forall|k: Seq<char>| #[trigger]
            self.table@.contains_key(k) <==> self.phrases@.contains_key(k)
        &&& forall|k: Seq<char>| #[trigger]
            self.table@.contains_key(k) ==> self.table@[k] == self.phrases@[k]@
    }

    /// An empty dictionary.
    pub fn new() -> (r: Dictionary)
        ensures
            r.table() == Map::<Seq<char>, Seq<char>>::empty(),
            r.max_len() == 0,
            r.wf(),
    {
        Dictionary { phrases: StringHashMap::new(), max_len: 0, table: Ghost(Map::empty()) }
    }

    /// The length of the longest source phrase.
    pub fn max_phrase_len(&self) -> (r: usize)
        requires
            self.wf(),
        ensures
            r as nat == self.max_len(),
            phrases_fit(self.table(), self.max_len()),
    {
        self.max_len
    }

    /// The replacement of the phrase `text[start..start + k]`, if it is in
    /// the table.
    fn probe(&self, text: &[char], start: usize, k: usize) -> (r: Option<&Vec<char>>)
        requires
            self.wf(),
            start + k <= text@.len(),
        ensures
            match r {
                Some(v) => self.table().contains_key(text@.subrange(start as int, start + k))
                    && v@ == self.table()[text@.subrange(start as int, start + k)],
                None => !self.table().contains_key(text@.subrange(start as int, start + k)),
            },
    {
        let key = string_of(phrase_at(text, start, k).as_slice());
        self.phrases.get(key.as_str())
    }

    /// Adds `source` with replacement `target`. A phrase already present keeps
    /// its replacement; an empty source is refused.
    pub fn insert(&mut self, source: Vec<char>, target: Vec<char>) -> (r: Result<(), DictionaryError>)
        requires
            old(self).wf(),
        ensures
            final(self).wf(),
            r == (if source@.len() == 0 {
                Err::<(), DictionaryError>(DictionaryError::EmptySource)
            } else {
                Ok(())
            }),
            r is Err ==> final(self).table() == old(self).table() && final(self).max_len()
                == old(self).max_len(),
            r is Ok ==> final(self).table() == (if old(self).table().contains_key(source@) {
                old(self).table()
            } else {
                old(self).table().insert(source@, target@)
            }),
            r is Ok ==> final(self).max_len() == (if old(self).table().contains_key(source@)
                || source@.len() <= old(self).max_len() {
                old(self).max_len()
            } else {
                source@.len()
            }),
    {
        if source.len() == 0 {
            return Err(DictionaryError::EmptySource);
        }
        let key = string_of(source.as_slice());
        if self.phrases.contains_key(key.as_str()) {
            return Ok(());
        }
        let ghost s = source@;
        let ghost t = target@;
        if source.len() > self.max_len {
            self.max_len = source.len();
        }
        self.phrases.insert(key, target);
        self.table = Ghost(self.table@.insert(s, t));
        Ok(())
    }

    /// The longest phrase that stands in `text` at `start`, with its
    /// replacement. Lengths are tried from the longest phrase's down to one.
    pub fn lookup<'a>(&'a self, text: &[char], start: usize) -> (r: Option<(usize, &'a [char])>)
        requires
            self.wf(),
            start <= text@.len(),
        ensures
            match r {
                None => match_len(self.table(), text@, start as int, self.max_len()) == 0,
                Some((k, rep)) => {
                    &&& k as nat == match_len(self.table(), text@, start as int, self.max_len())
                    &&& k > 0
                    &&& rep@ == self.table()[text@.subrange(start as int, start + k)]
                },
            },
    {
        let mut k: usize = self.max_len;
        while k > 0
            invariant
                self.wf(),
                k <= self.max_len,
                start <= text@.len(),
                match_len(self.table(), text@, start as int, self.max_len()) == match_len(
                    self.table(),
                    text@,
                    start as int,
                    k as nat,
                ),
            decreases k,
        {
            if k <= text.len() - start {
                match self.probe(text, start, k) {
                    Some(v) => {
                        return Some((k, v.as_slice()));
                    },
                    None => {},
                }
            }
            k = k - 1;
        }
        None
    }
}

} // verus!
