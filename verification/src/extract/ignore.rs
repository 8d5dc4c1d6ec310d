//! Ignore-span pattern pairs and the multi-pattern matchers behind them.
//!
//! A log can contain regions (environment dumps, submodule checkouts,
//! dependency downloads) whose content changes from build to build without
//! being interesting.  Each such region is delimited by a start phrase and an
//! end phrase; while the extractor is inside one, lines are skipped entirely.
//! The phrases are searched with `aho_corasick` matchers, compiled once when
//! an [`IgnorePatterns`] value is constructed and immutable afterwards.

use vstd::prelude::*;
use vstd::string::StringSliceAdditionalSpecFns;

verus! {

/// `pat` occurs somewhere in `hay` as a contiguous run of bytes.
pub open spec fn occurs(hay: Seq<u8>, pat: Seq<u8>) -> bool {
    exists|j: int|
        0 <= j && j + pat.len() <= hay.len() && #[trigger] hay.subrange(j, j + pat.len() as int)
            == pat
}

/// Declares `aho_corasick::AhoCorasick` to the verifier as an opaque type,
/// so values of it can live in fields and signatures.
#[verifier::external_type_specification]
#[verifier::external_body]
pub struct ExAhoCorasick(aho_corasick::AhoCorasick);

/// The patterns an `aho_corasick` matcher was built from.
pub uninterp spec fn ac_patterns(ac: aho_corasick::AhoCorasick) -> Seq<Seq<u8>>;

/// Whether the default-configuration matcher build succeeds on exactly
/// these patterns.  `AhoCorasick::new` is deterministic in its patterns, so
/// success is a function of the pattern table alone.
pub uninterp spec fn ac_build_ok(pats: Seq<Seq<u8>>) -> bool;

/// Relies on aho_corasick::AhoCorasick::new: with the default configuration
/// it builds a matcher over exactly the given patterns, or reports a build
/// error (returned here as `None`); which of the two happens depends on the
/// patterns alone.
#[verifier::external_body]
fn ac_build(patterns: &Vec<Vec<u8>>) -> (r: Option<aho_corasick::AhoCorasick>)
    ensures
        r is Some <==> ac_build_ok(patterns.deep_view()),
        r matches Some(ac) ==> ac_patterns(ac) == patterns.deep_view(),
{
    aho_corasick::AhoCorasick::new(patterns).ok()
}

/// What `find` reports for a haystack under a pattern table.  The search is
/// deterministic, so the result is a function of the patterns and the
/// haystack alone.
pub uninterp spec fn ac_find_result(pats: Seq<Seq<u8>>, hay: Seq<u8>) -> Option<usize>;

/// Relies on aho_corasick::AhoCorasick::find: it returns a pattern index
/// only for a pattern that occurs in the haystack, and `None` only when no
/// pattern occurs; the same patterns and haystack always give the same
/// answer.
#[verifier::external_body]
fn ac_find(ac: &aho_corasick::AhoCorasick, hay: &[u8]) -> (r: Option<usize>)
    ensures
        r == ac_find_result(ac_patterns(*ac), hay@),
        start_ok(r, hay@, ac_patterns(*ac)),
{
    ac.find(hay).map(|m| m.pattern().as_usize())
}

/// Some pattern of `pats` occurs in `line`.
pub open spec fn any_occurs(line: Seq<u8>, pats: Seq<Seq<u8>>) -> bool {
    exists|p: int| 0 <= p < pats.len() && occurs(line, pats[p])
}

/// Relies on aho_corasick::AhoCorasick::is_match: true exactly when some
/// pattern occurs in the haystack.
#[verifier::external_body]
fn ac_is_match(ac: &aho_corasick::AhoCorasick, hay: &[u8]) -> (r: bool)
    ensures
        r == any_occurs(hay@, ac_patterns(*ac)),
{
    ac.is_match(hay)
}

/// A `find` result is consistent with the pattern table: a reported index
/// names a pattern that occurs in the line, and `None` means none occurs.
pub open spec fn start_ok(o: Option<usize>, line: Seq<u8>, pats: Seq<Seq<u8>>) -> bool {
    match o {
        Some(p) => p < pats.len() && occurs(line, pats[p as int]),
        None => forall|p: int| 0 <= p < pats.len() ==> !occurs(line, pats[p]),
    }
}

/// The views of a pair table.
pub open spec fn pair_views(pairs: Seq<(Vec<u8>, Vec<u8>)>) -> Seq<(Seq<u8>, Seq<u8>)> {
    pairs.map_values(|p: (Vec<u8>, Vec<u8>)| (p.0@, p.1@))
}

/// Every matcher of a pair table compiles: the multi-pattern matcher over
/// the start phrases, and one single-pattern matcher per end phrase.
pub open spec fn pairs_build_ok(pairs: Seq<(Seq<u8>, Seq<u8>)>) -> bool {
    &&& ac_build_ok(pairs.map_values(|p: (Seq<u8>, Seq<u8>)| p.0))
    &&& forall|k: int| 0 <= k < pairs.len() ==> ac_build_ok(seq![(#[trigger] pairs[k]).1])
}

/// The compiled ignore-span table: a multi-pattern matcher over the start
/// phrases and one single-pattern matcher per end phrase, kept beside the
/// phrase bytes themselves.
pub struct IgnorePatterns {
    starts: Vec<Vec<u8>>,
    ends: Vec<Vec<u8>>,
    start_matcher: aho_corasick::AhoCorasick,
    end_matchers: Vec<aho_corasick::AhoCorasick>,
}

impl IgnorePatterns {
    /// The start phrases, in table order.
    pub closed spec fn start_pats(&self) -> Seq<Seq<u8>> {
        self.starts.deep_view()
    }

    /// The end phrases, in table order.
    pub closed spec fn end_pats(&self) -> Seq<Seq<u8>> {
        self.ends.deep_view()
    }

    /// The compiled matchers search exactly the stored phrases.
    pub closed spec fn wf(&self) -> bool {
        &&& self.starts@.len() == self.ends@.len()
        &&& ac_patterns(self.start_matcher) == self.start_pats()
        &&& self.end_matchers@.len() == self.ends@.len()
        &&& forall|p: int|
            0 <= p < self.ends@.len() ==> ac_patterns(self.end_matchers@[p]) =~= seq![
                self.ends@[p]@,
            ]
    }

    /// How many pattern pairs the table holds.
    pub fn len(&self) -> (r: usize)
        ensures
            r == self.start_pats().len(),
            self.wf() ==> r == self.end_pats().len(),
    {
        self.starts.len()
    }

    /// Compiles a table of `(start phrase, end phrase)` pairs.  It succeeds
    /// exactly when every matcher of the table compiles, and it then holds
    /// exactly the given phrases.
    pub fn from_pairs(pairs: Vec<(Vec<u8>, Vec<u8>)>) -> (r: Option<IgnorePatterns>)
        ensures
            (r matches Some(ip) ==> {
                &&& ip.wf()
                &&& ip.start_pats().len() == pairs@.len()
                &&& ip.end_pats().len() == pairs@.len()
                &&& forall|k: int|
                    0 <= k < pairs@.len() ==> ip.start_pats()[k] == pairs@[k].0@
                        && ip.end_pats()[k] == pairs@[k].1@
            }),
            r is Some <==> pairs_build_ok(pair_views(pairs@)),
    {
        let mut starts: Vec<Vec<u8>> = Vec::new();
        let mut ends: Vec<Vec<u8>> = Vec::new();
        let mut k: usize = 0;
        while k < pairs.len()
            invariant
                k <= pairs@.len(),
                starts@.len() == k,
                ends@.len() == k,
                forall|t: int|
                    0 <= t < k ==> starts@[t]@ == pairs@[t].0@ && ends@[t]@ == pairs@[t].1@,
            decreases pairs@.len() - k,
        {
            starts.push(clone_bytes(&pairs[k].0));
            ends.push(clone_bytes(&pairs[k].1));
            k += 1;
        }
        let ghost firsts = pair_views(pairs@).map_values(|p: (Seq<u8>, Seq<u8>)| p.0);
        proof {
            assert(starts.deep_view() =~~= firsts);
        }
        let start_matcher = match ac_build(&starts) {
            Some(m) => m,
            None => {
                proof {
                    assert(!ac_build_ok(firsts));
                }
                return None;
            },
        };
        let mut end_matchers: Vec<aho_corasick::AhoCorasick> = Vec::new();
        let mut p: usize = 0;
        while p < ends.len()
            invariant
                p <= ends@.len(),
                ends@.len() == pairs@.len(),
                end_matchers@.len() == p,
                forall|t: int| 0 <= t < ends@.len() ==> ends@[t]@ == pair_views(pairs@)[t].1,
                forall|t: int|
                    0 <= t < p ==> ac_patterns(end_matchers@[t]) =~= seq![ends@[t]@],
                forall|t: int| 0 <= t < p ==> ac_build_ok(seq![(#[trigger] ends@[t])@]),
            decreases ends@.len() - p,
        {
            let mut single: Vec<Vec<u8>> = Vec::new();
            single.push(clone_bytes(&ends[p]));
            proof {
                assert(single.deep_view() =~~= seq![ends@[p as int]@]);
            }
            match ac_build(&single) {
                Some(m) => {
                    end_matchers.push(m);
                },
                None => {
                    proof {
                        assert(!ac_build_ok(seq![pair_views(pairs@)[p as int].1]));
                        assert(!pairs_build_ok(pair_views(pairs@)));
                    }
                    return None;
                },
            }
            p += 1;
        }
        let r = IgnorePatterns { starts, ends, start_matcher, end_matchers };
        proof {
            assert(r.start_pats() =~~= r.starts.deep_view());
            assert forall|k: int| 0 <= k < pair_views(pairs@).len() implies ac_build_ok(
                seq![(#[trigger] pair_views(pairs@)[k]).1],
            ) by {
                assert(ac_build_ok(seq![r.ends@[k]@]));
                assert(r.ends@[k]@ == pair_views(pairs@)[k].1);
            }
            assert(pairs_build_ok(pair_views(pairs@)));
        }
        Some(r)
    }

    /// Searches the line for any start phrase.
    pub fn find_start(&self, hay: &[u8]) -> (r: Option<usize>)
        requires
            self.wf(),
        ensures
            r == ac_find_result(self.start_pats(), hay@),
            start_ok(r, hay@, self.start_pats()),
    {
        ac_find(&self.start_matcher, hay)
    }

    /// Whether end phrase number `p` occurs in the line.
    pub fn end_occurs(&self, p: usize, hay: &[u8]) -> (r: bool)
        requires
            self.wf(),
            p < self.end_pats().len(),
        ensures
            r == occurs(hay@, self.end_pats()[p as int]),
    {
        let r = ac_is_match(&self.end_matchers[p], hay);
        proof {
            let pats = ac_patterns(self.end_matchers@[p as int]);
            assert(pats =~= seq![self.ends@[p as int]@]);
            assert(pats[0] == self.end_pats()[p as int]);
        }
        r
    }
}

fn clone_bytes(v: &Vec<u8>) -> (r: Vec<u8>)
    ensures
        r@ == v@,
{
    let mut r: Vec<u8> = Vec::new();
    let mut i: usize = 0;
    while i < v.len()
        invariant
            i <= v@.len(),
            r@ == v@.take(i as int),
        decreases v@.len() - i,
    {
        r.push(v[i]);
        proof {
            assert(v@.take(i + 1) =~= v@.take(i as int).push(v@[i as int]));
        }
        i += 1;
    }
    proof {
        assert(v@.take(v@.len() as int) =~= v@);
    }
    r
}

/// The built-in ignore-span table, as phrase byte sequences.
pub open spec fn standard_pair_table() -> Seq<(Seq<u8>, Seq<u8>)> {
    seq![
        (
            "##[group]Run src/ci/scripts/dump-environment.sh".spec_bytes(),
            "##[group]".spec_bytes(),
        ),
        (
            "##[group]Run src/ci/scripts/checkout-submodules.sh".spec_bytes(),
            "##[group]".spec_bytes(),
        ),
        ("##[group]Run src/ci/scripts/install-awscli.sh".spec_bytes(), "##[group]".spec_bytes()),
        ("Downloading crates ...".spec_bytes(), "Compiling".spec_bytes()),
        ("[command]/usr/bin/git".spec_bytes(), "##[endgroup]".spec_bytes()),
        ("#[group]Clock drift check".spec_bytes(), "##[endgroup]".spec_bytes()),
        ("env:".spec_bytes(), "##[endgroup]".spec_bytes()),
        ("environment variables:".spec_bytes(), "biggest files in the working dir:".spec_bytes()),
    ]
}

/// The built-in ignore-span table: known-noisy, non-deterministic regions of
/// CI logs, each delimited by a start phrase and an end phrase.  It compiles
/// exactly when every matcher of the built-in table compiles, and then holds
/// exactly that table.
pub fn standard_ignore_patterns() -> (r: Option<IgnorePatterns>)
    ensures
        (r matches Some(ip) ==> {
            &&& ip.wf()
            &&& ip.start_pats().len() == standard_pair_table().len()
            &&& ip.end_pats().len() == standard_pair_table().len()
            &&& forall|k: int|
                0 <= k < standard_pair_table().len() ==> ip.start_pats()[k] == (
                #[trigger] standard_pair_table()[k]).0 && ip.end_pats()[k]
                    == standard_pair_table()[k].1
        }),
        r is Some <==> pairs_build_ok(standard_pair_table()),
{
    let mut pairs: Vec<(Vec<u8>, Vec<u8>)> = Vec::new();
    // Environment variable dumps differ in every build.
    pairs.push(
        (
            str_bytes("##[group]Run src/ci/scripts/dump-environment.sh"),
            str_bytes("##[group]"),
        ),
    );
    // Submodule initialization changes often.
    pairs.push(
        (
            str_bytes("##[group]Run src/ci/scripts/checkout-submodules.sh"),
            str_bytes("##[group]"),
        ),
    );
    // AWS cli installation involves the network.
    pairs.push(
        (str_bytes("##[group]Run src/ci/scripts/install-awscli.sh"), str_bytes("##[group]")),
    );
    // Cargo downloads crates in unpredictable order.
    pairs.push((str_bytes("Downloading crates ..."), str_bytes("Compiling")));
    // Groups invoking git commands.
    pairs.push((str_bytes("[command]/usr/bin/git"), str_bytes("##[endgroup]")));
    // Clock drift checks.
    pairs.push((str_bytes("#[group]Clock drift check"), str_bytes("##[endgroup]")));
    // Environment variable dumps can contain a SHA that differs per build.
    pairs.push((str_bytes("env:"), str_bytes("##[endgroup]")));
    // The dump-environment script of rust-lang/rust.
    pairs.push(
        (str_bytes("environment variables:"), str_bytes("biggest files in the working dir:")),
    );
    proof {
        assert forall|k: int| 0 <= k < 8 implies #[trigger] pair_views(pairs@)[k]
            == standard_pair_table()[k] by {
            assert(pair_views(pairs@)[k] == (pairs@[k].0@, pairs@[k].1@));
        }
        assert(pair_views(pairs@) =~= standard_pair_table());
    }
    IgnorePatterns::from_pairs(pairs)
}

fn str_bytes(s: &str) -> (r: Vec<u8>)
    ensures
        r@ == s.spec_bytes(),
{
    let b = s.as_bytes();
    let mut r: Vec<u8> = Vec::new();
    let mut i: usize = 0;
    while i < b.len()
        invariant
            i <= b@.len(),
            b@ == s.spec_bytes(),
            r@ == b@.take(i as int),
        decreases b@.len() - i,
    {
        r.push(b[i]);
        proof {
            assert(b@.take(i + 1) =~= b@.take(i as int).push(b@[i as int]));
        }
        i += 1;
    }
    proof {
        assert(b@.take(b@.len() as int) =~= b@);
    }
    r
}

} // verus!
