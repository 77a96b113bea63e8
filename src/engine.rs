//! The engine facade: open a named profile, convert texts, close.
use vstd::prelude::*;
use vstd::string::StringExecFns;
use crate::dict::DictionaryError;
use crate::dict::phrases_fit;
use crate::pipeline::{Pipeline, PassModel, run_passes, lemma_passthrough};
use crate::segment::mentions;
use crate::profile::{Profile, Table, profile_named, profile_tables, resolve, table_source, table_text, tables_of};
use crate::table::{load, read_table, lemma_read_fits};
use crate::text::{chars_of, string_of};

verus! {

/// Why an engine operation failed.
#[derive(Debug, Clone, Copy, PartialEq, Eq, Structural)]
pub enum OpenCCError {
    /// No profile is registered under the name given.
    UnknownProfile,
    /// A table of the profile is malformed at the given line.
    DictionaryLoad(usize),
    /// The instance has been closed.
    ClosedInstance,
}

/// A description of error `e`.
pub open spec fn describe(e: OpenCCError) -> Seq<char> {
    match e {
        OpenCCError::UnknownProfile => "unknown conversion profile"@,
        OpenCCError::DictionaryLoad(_) => "malformed dictionary table"@,
        OpenCCError::ClosedInstance => "the converter is closed"@,
    }
}

impl OpenCCError {
    /// A description of the error.
    pub fn message(&self) -> (r: String)
        ensures
            r@ == describe(*self),
    {
        match self {
            OpenCCError::UnknownProfile => String::from_str("unknown conversion profile"),
            OpenCCError::DictionaryLoad(_) => String::from_str("malformed dictionary table"),
            OpenCCError::ClosedInstance => String::from_str("the converter is closed"),
        }
    }
}

/// The passes read from the tables `ts`, in order, or the line of the first
/// malformed record met.
pub open spec fn load_tables(ts: Seq<Table>) -> Result<Seq<PassModel>, nat>
    decreases ts.len(),
{
    if ts.len() == 0 {
        Ok(Seq::empty())
    } else {
        match load_tables(ts.drop_last()) {
            Err(l) => Err(l),
            Ok(ps) => match read_table(table_text(ts.last())) {
                Ok(m) => Ok(ps.push(m)),
                Err(l) => Err(l),
            },
        }
    }
}

/// Once a prefix of the tables fails to load, all of them fail, at the same
/// line.
proof fn lemma_load_fails_on(ts: Seq<Table>, i: int)
    requires
        0 <= i <= ts.len(),
        load_tables(ts.subrange(0, i)) is Err,
    ensures
        load_tables(ts) == load_tables(ts.subrange(0, i)),
    decreases ts.len() - i,
{
    if i < ts.len() {
        assert(ts.subrange(0, i + 1).drop_last() =~= ts.subrange(0, i));
        lemma_load_fails_on(ts, i + 1);
    } else {
        assert(ts.subrange(0, i) =~= ts);
    }
}

/// Every pass loaded from a list of tables has non-empty phrases no longer
/// than its recorded longest length.
pub proof fn lemma_loaded_fit(ts: Seq<Table>)
    ensures
        load_tables(ts) is Ok ==> forall|j: int|
            0 <= j < load_tables(ts)->Ok_0.len() ==> phrases_fit(
                #[trigger] load_tables(ts)->Ok_0[j].0,
                load_tables(ts)->Ok_0[j].1,
            ),
    decreases ts.len(),
{
    if ts.len() > 0 {
        lemma_loaded_fit(ts.drop_last());
        lemma_read_fits(table_text(ts.last()));
    }
}

/// Converting with a profile leaves unchanged a text none of whose characters
/// occurs in a source phrase of any of the profile's tables.
pub proof fn lemma_profile_passthrough(p: Profile, text: Seq<char>)
    requires
        load_tables(profile_tables(p)) is Ok,
        forall|i: int, j: int|
            0 <= i < text.len() && 0 <= j < load_tables(profile_tables(p))->Ok_0.len() ==> !mentions(
                #[trigger] load_tables(profile_tables(p))->Ok_0[j].0,
                #[trigger] text[i],
            ),
    ensures
        run_passes(load_tables(profile_tables(p))->Ok_0, text) == text,
{
    lemma_loaded_fit(profile_tables(p));
    lemma_passthrough(load_tables(profile_tables(p))->Ok_0, text);
}

/// A converter bound to one profile. It is open from creation until `close`;
/// a closed converter refuses to convert.
pub struct OpenCC {
    /// The name of the profile.
    pub config: String,
    pipeline: Option<Pipeline>,
}

impl OpenCC {
    #[verifier::type_invariant]
    closed spec fn inv(&self) -> bool {
        match self.pipeline {
            Some(p) => p.wf(),
            None => true,
        }
    }

    /// The name of the profile.
    pub closed spec fn profile_name(&self) -> Seq<char> {
        self.config@
    }

    /// The converter has been closed.
    pub closed spec fn closed(&self) -> bool {
        self.pipeline is None
    }

    /// The passes that a conversion runs, in order (none once closed).
    pub closed spec fn passes(&self) -> Seq<PassModel> {
        match self.pipeline {
            Some(p) => p.model(),
            None => Seq::empty(),
        }
    }

    /// Opens the profile registered under `config` and reads its tables.
    pub fn new(config: &str) -> (r: Result<OpenCC, OpenCCError>)
        ensures
            match profile_named(config@) {
                None => r == Err::<OpenCC, OpenCCError>(OpenCCError::UnknownProfile),
                Some(p) => match load_tables(profile_tables(p)) {
                    Err(l) => r == Err::<OpenCC, OpenCCError>(OpenCCError::DictionaryLoad(l as usize)),
                    Ok(ps) => {
                        &&& r is Ok
                        &&& r->Ok_0.profile_name() == config@
                        &&& !r->Ok_0.closed()
                        &&& r->Ok_0.passes() == ps
                    },
                },
            },
    {
        let p = match resolve(config) {
            Some(p) => p,
            None => return Err(OpenCCError::UnknownProfile),
        };
        let ts = tables_of(p);
        let mut pipe = Pipeline::new();
        let mut i: usize = 0;
        assert(ts@.subrange(0, 0) =~= Seq::<Table>::empty());
        while i < ts.len()
            invariant
                profile_named(config@) == Some(p),
                ts@ == profile_tables(p),
                i <= ts@.len(),
                pipe.wf(),
                load_tables(ts@.subrange(0, i as int)) == Ok::<Seq<PassModel>, nat>(pipe.model()),
            decreases ts@.len() - i,
        {
            assert(ts@.subrange(0, i + 1).drop_last() =~= ts@.subrange(0, i as int));
            assert(ts@.subrange(0, i + 1).last() == ts@[i as int]);
            match load(table_source(ts[i])) {
                Ok(d) => {
                    pipe.push(d);
                },
                Err(DictionaryError::Malformed(l)) => {
                    proof {
                        let pre = ts@.subrange(0, i + 1);
                        assert(read_table(table_text(pre.last())) is Err);
                        assert(load_tables(pre) == Err::<Seq<PassModel>, nat>(
                            read_table(table_text(pre.last()))->Err_0,
                        ));
                        lemma_load_fails_on(ts@, i + 1);
                    }
                    return Err(OpenCCError::DictionaryLoad(l));
                },
                // reading a table reports malformed records only
                Err(DictionaryError::EmptySource) => {
                    return Err(OpenCCError::DictionaryLoad(0));
                },
            }
            i = i + 1;
        }
        assert(ts@.subrange(0, i as int) =~= ts@);
        Ok(OpenCC { config: String::from_str(config), pipeline: Some(pipe) })
    }

    /// Converts `text` through every pass of the profile, in order.
    pub fn convert(&self, text: &str) -> (r: Result<String, OpenCCError>)
        ensures
            self.closed() ==> r == Err::<String, OpenCCError>(OpenCCError::ClosedInstance),
            !self.closed() ==> r is Ok && r->Ok_0@ == run_passes(self.passes(), text@),
    {
        proof {
            use_type_invariant(self);
        }
        match &self.pipeline {
            None => Err(OpenCCError::ClosedInstance),
            Some(p) => {
                let cs = chars_of(text);
                let out = p.run(cs.as_slice());
                Ok(string_of(out.as_slice()))
            },
        }
    }

    /// Closes the converter and releases its tables. Closing again does
    /// nothing.
    pub fn close(&mut self)
        ensures
            final(self).closed(),
            final(self).profile_name() == old(self).profile_name(),
    {
        self.pipeline = None;
    }

    /// Whether the converter has been closed.
    pub fn is_closed(&self) -> (r: bool)
        ensures
            r == self.closed(),
    {
        self.pipeline.is_none()
    }

    /// The description of the error that this converter's operations now
    /// report: empty while it is open.
    pub fn last_error(&mut self) -> (r: Option<String>)
        ensures
            *final(self) == *old(self),
            r is Some,
            r->Some_0@ == (if old(self).closed() {
                describe(OpenCCError::ClosedInstance)
            } else {
                Seq::<char>::empty()
            }),
    {
        if self.pipeline.is_none() {
            Some(OpenCCError::ClosedInstance.message())
        } else {
            Some(String::new())
        }
    }
}

} // verus!
