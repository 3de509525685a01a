//! The low-level section grammar's error type and small helpers.

use vstd::prelude::*;

use crate::textutil::{chars_to_string, str_to_chars};

verus! {

/// Why a document failed to parse.
#[derive(Debug)]
pub enum Error {
    ParseError { message: String, doc_id: String, line_number: usize },
}

/// Builds a parse error for a document and line.
pub fn parse_error<T>(m: &str, doc_id: &str, line_number: usize) -> (r: Result<T, Error>)
    ensures
        r matches Err(Error::ParseError { message, doc_id: d, line_number: l }) && message@ == m@
            && d@ == doc_id@ && l == line_number,
{
    Err(
        Error::ParseError {
            message: String::from_str(m),
            doc_id: String::from_str(doc_id),
            line_number,
        },
    )
}

/// The text with its leading backslashes stripped.
pub open spec fn strip_leading_backslashes(v: Seq<char>) -> Seq<char>
    decreases v.len(),
{
    if v.len() > 0 && v[0] == '\\' {
        strip_leading_backslashes(v.drop_first())
    } else {
        v
    }
}

proof fn lemma_strip_at(v: Seq<char>, i: int)
    requires
        0 <= i <= v.len(),
        forall|j: int| 0 <= j < i ==> v[j] == '\\',
        i < v.len() ==> v[i] != '\\',
    ensures
        strip_leading_backslashes(v) == v.skip(i),
    decreases i,
{
    if i == 0 {
        assert(strip_leading_backslashes(v) =~= v.skip(0));
    } else {
        assert(v[0] == '\\');
        lemma_strip_at(v.drop_first(), i - 1);
        assert(v.drop_first().skip(i - 1) =~= v.skip(i));
    }
}

/// The value with a comment prefix removed: a plain `/` comments the
/// value away, a `\/` keeps it with the leading backslashes stripped.
pub open spec fn uncommented(v: Seq<char>) -> Option<Seq<char>> {
    if v.len() > 0 && v[0] == '/' {
        None
    } else if v.len() > 1 && v[0] == '\\' && v[1] == '/' {
        Some(strip_leading_backslashes(v))
    } else {
        Some(v)
    }
}

/// Strips the comment prefix, if any, from an optional value.
pub fn remove_value_comment(value: &mut Option<String>)
    ensures
        match *old(value) {
            Some(v) => match *final(value) {
                Some(w) => uncommented(v@) == Some(w@),
                None => uncommented(v@) is None,
            },
            None => *final(value) is None,
        },
{
    let taken = value.take();
    match taken {
        Some(v) => {
            let chars = str_to_chars(v.as_str());
            if chars.len() > 0 && chars[0] == '/' {
                *value = None;
                return ;
            }
            if chars.len() > 1 && chars[0] == '\\' && chars[1] == '/' {
                let mut i: usize = 0;
                let n = chars.len();
                while i < n && chars[i] == '\\'
                    invariant
                        i <= n,
                        n == chars@.len(),
                        forall|j: int| 0 <= j < i ==> chars@[j] == '\\',
                    decreases n - i,
                {
                    i = i + 1;
                }
                let mut out: Vec<char> = Vec::new();
                for k in i..n
                    invariant
                        i <= k <= n,
                        n == chars@.len(),
                        out@ == chars@.subrange(i as int, k as int),
                {
                    out.push(chars[k]);
                    proof {
                        assert(out@ =~= chars@.subrange(i as int, k + 1));
                    }
                }
                proof {
                    lemma_strip_at(chars@, i as int);
                    assert(out@ =~= chars@.skip(i as int));
                }
                *value = Some(chars_to_string(&out));
                return ;
            }
            *value = Some(v);
        },
        None => {},
    }
}

} // verus!
