//! Well-known variables that CI jobs print into their logs.
//!
//! A job can emit lines of the shape `[NAME=value]`; the worker reads the
//! job name, the pull-request number and a documentation URL out of them.

use crate::extract::lines_data;
use crate::index::IndexData;
use vstd::prelude::*;
use vstd::string::StringSliceAdditionalSpecFns;
use vstd::utf8::{decode_utf8, encode_utf8, valid_utf8};

verus! {

/// Relies on core::str::from_utf8: it accepts exactly the valid UTF-8 byte
/// sequences, and the returned string slice has the input as its bytes.
#[verifier::external_body]
fn bytes_to_str(v: &[u8]) -> (r: Option<&str>)
    ensures
        (match r {
            Some(s) => valid_utf8(v@) && s.spec_bytes() == v@ && s@ == decode_utf8(v@),
            None => !valid_utf8(v@),
        }),
{
    core::str::from_utf8(v).ok()
}

/// Index of the first `=` in `s`, or `s.len()` if there is none.
pub open spec fn sep_pos(s: Seq<u8>) -> int
    decreases s.len(),
{
    if s.len() == 0 {
        0
    } else if s[0] == 0x3du8 {
        0
    } else {
        1 + sep_pos(s.skip(1))
    }
}

proof fn lemma_sep_pos_is(s: Seq<u8>, j: int)
    requires
        0 <= j <= s.len(),
        forall|k: int| 0 <= k < j ==> s[k] != 0x3du8,
        j < s.len() ==> s[j] == 0x3du8,
    ensures
        sep_pos(s) == j,
    decreases j,
{
    if j > 0 {
        assert forall|k: int| 0 <= k < j - 1 implies s.skip(1)[k] != 0x3du8 by {
            assert(s.skip(1)[k] == s[k + 1]);
        }
        if j - 1 < s.skip(1).len() {
            assert(s.skip(1)[j - 1] == s[j]);
        }
        lemma_sep_pos_is(s.skip(1), j - 1);
    }
}

/// What `extract_variable` yields for one line: the decoded value when the
/// line has the exact shape `[name=value]` and the value is valid UTF-8,
/// and nothing otherwise.
pub open spec fn spec_extract_variable(line: Seq<u8>, name: Seq<u8>) -> Option<Seq<char>> {
    if line.len() == 0 || line.first() != 0x5bu8 || line.last() != 0x5du8 {
        None
    } else if sep_pos(line) == line.len() {
        None
    } else if line.subrange(1, sep_pos(line)) != name {
        None
    } else if !valid_utf8(line.subrange(sep_pos(line) + 1, line.len() - 1)) {
        None
    } else {
        Some(decode_utf8(line.subrange(sep_pos(line) + 1, line.len() - 1)))
    }
}

fn bytes_eq(a: &[u8], b: &[u8]) -> (r: bool)
    ensures
        r == (a@ == b@),
{
    if a.len() != b.len() {
        return false;
    }
    let mut i: usize = 0;
    while i < a.len()
        invariant
            i <= a@.len(),
            a@.len() == b@.len(),
            forall|k: int| 0 <= k < i ==> a@[k] == b@[k],
        decreases a@.len() - i,
    {
        if a[i] != b[i] {
            return false;
        }
        i += 1;
    }
    proof {
        assert(a@ =~= b@);
    }
    true
}

/// Reads the value of `[name=value]` out of one sanitized line.  The line
/// must start with `[`, end with `]`, and carry exactly `name` before its
/// first `=`; the value must be valid UTF-8.
pub fn extract_variable<'a>(line: &'a [u8], name: &str) -> (r: Option<&'a str>)
    ensures
        (match r {
            Some(s) => spec_extract_variable(line@, name.spec_bytes()) == Some(s@),
            None => spec_extract_variable(line@, name.spec_bytes()) is None,
        }),
{
    if line.len() == 0 {
        return None;
    }
    if line[0] != 0x5bu8 || line[line.len() - 1] != 0x5du8 {
        return None;
    }
    let mut e: usize = 0;
    while e < line.len() && line[e] != 0x3du8
        invariant
            e <= line@.len(),
            forall|k: int| 0 <= k < e ==> line@[k] != 0x3du8,
        decreases line@.len() - e,
    {
        e += 1;
    }
    proof {
        lemma_sep_pos_is(line@, e as int);
    }
    if e == line.len() {
        return None;
    }
    let nb = name.as_bytes();
    if !bytes_eq(&line[1..e], nb) {
        return None;
    }
    let value = &line[e + 1..line.len() - 1];
    bytes_to_str(value)
}

/// The byte shape of the job-name variable's name.
pub open spec fn job_name_key() -> Seq<u8> {
    encode_utf8("CI_JOB_NAME"@)
}

/// The byte shape of the pull-request-number variable's name.
pub open spec fn pr_number_key() -> Seq<u8> {
    encode_utf8("CI_PR_NUMBER"@)
}

/// The byte shape of the documentation-URL variable's name.
pub open spec fn doc_url_key() -> Seq<u8> {
    encode_utf8("CI_JOB_DOC_URL"@)
}

/// The first value of variable `name` at or after line `k`.
pub open spec fn first_var_from(lines: Seq<Seq<u8>>, name: Seq<u8>, k: int) -> Option<Seq<char>>
    decreases lines.len() - k,
    when 0 <= k
{
    if k >= lines.len() {
        None
    } else if spec_extract_variable(lines[k], name) is Some {
        spec_extract_variable(lines[k], name)
    } else {
        first_var_from(lines, name, k + 1)
    }
}

/// The value of variable `name` on the first line that carries it.
pub open spec fn first_var(lines: Seq<Seq<u8>>, name: Seq<u8>) -> Option<Seq<char>> {
    first_var_from(lines, name, 0)
}

/// An optional string slice carries exactly an optional character sequence.
pub open spec fn opt_str_is(o: Option<&str>, v: Option<Seq<char>>) -> bool {
    match o {
        Some(s) => v == Some(s@),
        None => v is None,
    }
}

/// The well-known variables found in a log, each from the first line that
/// carries it.
pub struct LogVariables<'a> {
    pub job_name: Option<&'a str>,
    pub pr_number: Option<&'a str>,
    pub doc_url: Option<&'a str>,
}

impl<'a> LogVariables<'a> {
    /// Scans the sanitized lines for the three well-known variables.
    pub fn extract<I: IndexData>(lines: &'a [I]) -> (r: LogVariables<'a>)
        ensures
            opt_str_is(r.job_name, first_var(lines_data(lines@), job_name_key())),
            opt_str_is(
                r.pr_number,
                first_var(lines_data(lines@), pr_number_key()),
            ),
            opt_str_is(r.doc_url, first_var(lines_data(lines@), doc_url_key())),
    {
        let ghost lb = lines_data(lines@);
        let mut job_name: Option<&'a str> = None;
        let mut pr_number: Option<&'a str> = None;
        let mut doc_url: Option<&'a str> = None;
        let mut i: usize = 0;
        while i < lines.len() && !(job_name.is_some() && pr_number.is_some()
            && doc_url.is_some())
            invariant
                i <= lines@.len(),
                lb == lines_data(lines@),
                first_var(lb, job_name_key()) == (match job_name {
                    Some(s) => Some(s@),
                    None => first_var_from(lb, job_name_key(), i as int),
                }),
                first_var(lb, pr_number_key()) == (match pr_number {
                    Some(s) => Some(s@),
                    None => first_var_from(lb, pr_number_key(), i as int),
                }),
                first_var(lb, doc_url_key()) == (match doc_url {
                    Some(s) => Some(s@),
                    None => first_var_from(lb, doc_url_key(), i as int),
                }),
            decreases lines@.len() - i,
        {
            let sanitized = lines[i].sanitized();
            if job_name.is_none() {
                job_name = extract_variable(sanitized, "CI_JOB_NAME");
            }
            if pr_number.is_none() {
                pr_number = extract_variable(sanitized, "CI_PR_NUMBER");
            }
            if doc_url.is_none() {
                doc_url = extract_variable(sanitized, "CI_JOB_DOC_URL");
            }
            i += 1;
        }
        LogVariables { job_name, pr_number, doc_url }
    }
}

} // verus!
