//! Turns raw file names into human-language-like strings suitable for
//! semantic embedding: the name is split at its last `.` into a name part and
//! a format part, and in the name part every `-` and `_` becomes a space.
use vstd::prelude::*;
use vstd::string::*;

verus! {

/// Replaces every `-` and `_` in a character sequence with a space, so that
/// compound identifiers read as natural language.
pub open spec fn replace_separators(s: Seq<char>) -> Seq<char> {
    s.map_values(|c: char| if c == '-' || c == '_' { ' ' } else { c })
}

/// Index of the last `.` in `s`, or -1 when none occurs.
pub open spec fn last_dot_index(s: Seq<char>) -> int
    decreases s.len(),
{
    if s.len() == 0 {
        -1
    } else if s[s.len() - 1] == '.' {
        s.len() - 1
    } else {
        last_dot_index(s.drop_last())
    }
}

/// What the fingerprint formatter produces: the part before the last `.` with
/// separators replaced, then `.`, then the part after the last `.` unchanged.
/// A name without any `.` takes the documented degenerate duplicated form: the
/// whole name with separators replaced, then `.`, then the whole name
/// unchanged (so `readme` becomes `readme.readme`).
pub open spec fn spec_format_file_name(s: Seq<char>) -> Seq<char> {
    let j = last_dot_index(s);
    if j >= 0 {
        replace_separators(s.take(j)) + seq!['.'] + s.skip(j + 1)
    } else {
        replace_separators(s) + seq!['.'] + s
    }
}

pub proof fn lemma_last_dot_index(s: Seq<char>)
    ensures
        -1 <= last_dot_index(s) < s.len(),
        last_dot_index(s) >= 0 ==> s[last_dot_index(s)] == '.',
        forall|k: int| last_dot_index(s) < k < s.len() ==> s[k] != '.',
    decreases s.len(),
{
    if s.len() == 0 {
    } else if s[s.len() - 1] == '.' {
    } else {
        lemma_last_dot_index(s.drop_last());
        assert forall|k: int| last_dot_index(s) < k < s.len() implies s[k] != '.' by {
            if k < s.len() - 1 {
                assert(s.drop_last()[k] == s[k]);
            }
        }
    }
}

/// Relies on std's String::push: appends exactly one character.
#[verifier::external_body]
fn push_char(s: &mut String, c: char)
    ensures
        final(s)@ == old(s)@.push(c),
{
    s.push(c);
}

/// Position of the last `.` in `s`, if any.
fn find_last_dot(s: &str) -> (r: Option<usize>)
    ensures
        match r {
            Some(j) => j == last_dot_index(s@) && j < s@.len(),
            None => last_dot_index(s@) == -1,
        },
{
    let n = s.unicode_len();
    let mut i = n;
    while i > 0
        invariant
            i <= n,
            n == s@.len(),
            forall|k: int| i <= k < n ==> s@[k] != '.',
        decreases i,
    {
        i = i - 1;
        let c = s.get_char(i);
        if c == '.' {
            proof {
                lemma_last_dot_index(s@);
                let m = last_dot_index(s@);
                if m > i {
                    assert(s@[m] != '.');
                }
                if m < i {
                    assert(s@[i as int] != '.');
                }
            }
            return Some(i);
        }
    }
    proof {
        lemma_last_dot_index(s@);
        let m = last_dot_index(s@);
        if m >= 0 {
            assert(s@[m] != '.');
        }
    }
    None
}

/// Formats one file name for embedding: separators in the name part become
/// spaces, the format part after the last `.` is kept verbatim. A name with no
/// `.` yields the degenerate duplicated form that `spec_format_file_name`
/// states.
pub fn format_file_name(file_name: &str) -> (r: String)
    ensures
        r@ == spec_format_file_name(file_name@),
{
    let n = file_name.unicode_len();
    let dot = find_last_dot(file_name);
    let name_end: usize = match dot {
        Some(j) => j,
        None => n,
    };
    let ghost name_src: Seq<char> = file_name@.take(name_end as int);
    let mut out = String::new();
    let mut i: usize = 0;
    while i < name_end
        invariant
            i <= name_end <= n,
            n == file_name@.len(),
            name_src == file_name@.take(name_end as int),
            out@ == replace_separators(name_src).take(i as int),
        decreases name_end - i,
    {
        let c = file_name.get_char(i);
        let c2: char = if c == '-' || c == '_' {
            ' '
        } else {
            c
        };
        push_char(&mut out, c2);
        proof {
            assert(replace_separators(name_src)[i as int] == c2);
            assert(out@ =~= replace_separators(name_src).take(i + 1));
        }
        i = i + 1;
    }
    assert(out@ =~= replace_separators(name_src));
    push_char(&mut out, '.');
    let fmt_start: usize = match dot {
        Some(j) => j + 1,
        None => 0,
    };
    let ghost before_fmt: Seq<char> = out@;
    let mut k = fmt_start;
    while k < n
        invariant
            fmt_start <= k <= n,
            n == file_name@.len(),
            out@ == before_fmt + file_name@.subrange(fmt_start as int, k as int),
        decreases n - k,
    {
        let c = file_name.get_char(k);
        push_char(&mut out, c);
        proof {
            assert(out@ =~= before_fmt + file_name@.subrange(fmt_start as int, k + 1));
        }
        k = k + 1;
    }
    proof {
        if fmt_start == 0 {
            assert(file_name@.subrange(0, n as int) =~= file_name@);
        }
        assert(out@ =~= spec_format_file_name(file_name@));
    }
    out
}

/// Formats a batch of file names, preserving order: the i-th output is the
/// formatted form of the i-th input.
pub fn format_file_names(file_names: &Vec<&String>) -> (r: Vec<String>)
    ensures
        r@.len() == file_names@.len(),
        forall|i: int|
            0 <= i < r@.len() ==> r@[i]@ == spec_format_file_name(file_names@[i]@),
{
    let mut result: Vec<String> = Vec::new();
    let mut i: usize = 0;
    while i < file_names.len()
        invariant
            i <= file_names@.len(),
            result@.len() == i,
            forall|j: int|
                0 <= j < i ==> result@[j]@ == spec_format_file_name(file_names@[j]@),
        decreases file_names@.len() - i,
    {
        result.push(format_file_name(file_names[i].as_str()));
        i = i + 1;
    }
    result
}

} // verus!
