//! The host filter: an immutable strictness flag and a set of glob patterns
//! matched against a record's request host.

use vstd::prelude::*;
use crate::record::{LogRecord, RecordV};

verus! {

broadcast use vstd::seq::group_seq_axioms, vstd::std_specs::vec::group_vec_axioms;

/// Whether a pattern text compiles as a glob; a function of the text alone.
pub uninterp spec fn pattern_ok(p: Seq<char>) -> bool;

/// Whether a compiled glob pattern matches a text, under the default options
/// (case-sensitive, separators not special); a function of both texts alone.
pub uninterp spec fn glob_matches(p: Seq<char>, text: Seq<char>) -> bool;

/// Relies on glob::Pattern::new: whether the pattern compiles depends on its
/// text alone.
#[verifier::external_body]
fn compile_ok(p: &str) -> (r: bool)
    ensures
        r == pattern_ok(p@),
{
    glob::Pattern::new(p).is_ok()
}

/// Relies on glob::Pattern::new and glob::Pattern::matches, which uses the
/// default options (case-sensitive, separators and leading dots not special):
/// the outcome depends on the pattern and the text alone.
#[verifier::external_body]
fn glob_match(p: &str, text: &str) -> (r: bool)
    ensures
        pattern_ok(p@) ==> r == glob_matches(p@, text@),
        !pattern_ok(p@) ==> r == false,
{
    match glob::Pattern::new(p) {
        Ok(pat) => pat.matches(text),
        Err(_) => false,
    }
}

/// A configuration error: the given host pattern is not a valid glob.
#[derive(Debug, PartialEq, Eq)]
pub enum FilterError {
    InvalidHostPattern,
}

impl FilterError {
    /// A short operator-facing description.
    pub fn message(&self) -> (r: &'static str)
        ensures
            r@ == "invalid host filter"@,
    {
        "invalid host filter"
    }
}

pub struct FiltersV {
    pub strict: bool,
    pub patterns: Seq<Seq<char>>,
}

pub open spec fn pats_view(ps: Seq<String>) -> Seq<Seq<char>> {
    Seq::new(ps.len(), |i: int| ps[i]@)
}

/// Builder for [`Filters`]; host patterns are validated as they are added.
pub struct FiltersBuilder {
    strict: bool,
    host_patterns: Vec<String>,
}

/// The immutable filter configuration.
pub struct Filters {
    strict: bool,
    host_patterns: Vec<String>,
}

impl View for FiltersBuilder {
    type V = FiltersV;

    closed spec fn view(&self) -> FiltersV {
        FiltersV { strict: self.strict, patterns: pats_view(self.host_patterns@) }
    }
}

impl View for Filters {
    type V = FiltersV;

    closed spec fn view(&self) -> FiltersV {
        FiltersV { strict: self.strict, patterns: pats_view(self.host_patterns@) }
    }
}

/// Whether a record passes the filter: with no patterns everything passes;
/// with patterns, only a request whose host some valid pattern matches.
pub open spec fn spec_matches(fv: FiltersV, rv: RecordV) -> bool {
    if fv.patterns.len() == 0 {
        true
    } else {
        match rv.request {
            None => false,
            Some(rq) => exists|i: int|
                0 <= i < fv.patterns.len() && pattern_ok(#[trigger] fv.patterns[i])
                    && glob_matches(fv.patterns[i], rq.host),
        }
    }
}

/// Every pattern the builder admitted compiles.
pub open spec fn patterns_ok(fv: FiltersV) -> bool {
    forall|i: int| 0 <= i < fv.patterns.len() ==> pattern_ok(#[trigger] fv.patterns[i])
}

impl FiltersBuilder {
    /// Set the strictness flag.
    pub fn with_strict(&mut self, strict: bool)
        ensures
            final(self)@ == (FiltersV { strict, ..old(self)@ }),
    {
        self.strict = strict;
    }

    /// Add one host glob pattern; an invalid pattern is reported and not
    /// added.
    pub fn with_host(&mut self, host: &str) -> (r: Result<(), FilterError>)
        ensures
            match r {
                Ok(()) => pattern_ok(host@) && final(self)@ == (FiltersV {
                    patterns: old(self)@.patterns.push(host@),
                    ..old(self)@
                }),
                Err(_) => !pattern_ok(host@) && final(self)@ == old(self)@,
            },
    {
        if compile_ok(host) {
            self.host_patterns.push(String::from_str(host));
            proof {
                assert(pats_view(self.host_patterns@) =~= pats_view(
                    old(self).host_patterns@,
                ).push(host@));
            }
            Ok(())
        } else {
            Err(FilterError::InvalidHostPattern)
        }
    }

    /// Finish the configuration.
    pub fn build(self) -> (r: Filters)
        ensures
            r@ == self@,
    {
        Filters { strict: self.strict, host_patterns: self.host_patterns }
    }
}

impl Filters {
    /// A builder with strictness off and no patterns.
    pub fn builder() -> (r: FiltersBuilder)
        ensures
            r@.strict == false,
            r@.patterns.len() == 0,
    {
        let b = FiltersBuilder { strict: false, host_patterns: Vec::new() };
        proof {
            assert(pats_view(b.host_patterns@) =~= Seq::<Seq<char>>::empty());
        }
        b
    }

    /// The strictness flag, for the line pipeline's decode-failure policy.
    pub fn is_strict(&self) -> (r: bool)
        ensures
            r == self@.strict,
    {
        self.strict
    }

    /// Whether the record passes the host filter.
    pub fn matches(&self, record: &LogRecord) -> (r: bool)
        ensures
            r == spec_matches(self@, record@),
    {
        self.matches_host(record)
    }

    fn matches_host(&self, record: &LogRecord) -> (r: bool)
        ensures
            r == spec_matches(self@, record@),
    {
        if self.host_patterns.len() == 0 {
            return true;
        }
        let host: &String = match &record.request {
            None => {
                return false;
            },
            Some(rq) => &rq.host,
        };
        let mut i: usize = 0;
        while i < self.host_patterns.len()
            invariant
                i <= self.host_patterns@.len(),
                host@ == record@.request.unwrap().host,
                record@.request is Some,
                forall|j: int|
                    0 <= j < i ==> !(pattern_ok(#[trigger] self@.patterns[j]) && glob_matches(
                        self@.patterns[j],
                        host@,
                    )),
            decreases self.host_patterns@.len() - i,
        {
            if glob_match(self.host_patterns[i].as_str(), host.as_str()) {
                proof {
                    assert(pattern_ok(self@.patterns[i as int]) && glob_matches(
                        self@.patterns[i as int],
                        host@,
                    ));
                }
                return true;
            }
            i = i + 1;
        }
        false
    }
}

/// With an empty pattern set every record passes the filter, whether or not
/// it carries a request.
pub proof fn lemma_empty_patterns_match_all(fv: FiltersV, rv: RecordV)
    requires
        fv.patterns.len() == 0,
    ensures
        spec_matches(fv, rv),
{
}

/// With patterns configured, a record without a request never passes, and a
/// record with one passes exactly when some pattern matches its host.
pub proof fn lemma_patterns_gate(fv: FiltersV, rv: RecordV)
    requires
        fv.patterns.len() > 0,
        patterns_ok(fv),
    ensures
        rv.request is None ==> !spec_matches(fv, rv),
        rv.request is Some ==> (spec_matches(fv, rv) <==> exists|i: int|
            0 <= i < fv.patterns.len() && glob_matches(
                #[trigger] fv.patterns[i],
                rv.request.unwrap().host,
            )),
{
    if rv.request is Some {
        let host = rv.request.unwrap().host;
        if exists|i: int|
            0 <= i < fv.patterns.len() && glob_matches(#[trigger] fv.patterns[i], host) {
            let i = choose|i: int|
                0 <= i < fv.patterns.len() && glob_matches(#[trigger] fv.patterns[i], host);
            assert(pattern_ok(fv.patterns[i]) && glob_matches(fv.patterns[i], host));
        }
    }
}

} // verus!
