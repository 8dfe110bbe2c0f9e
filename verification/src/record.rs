//! The names of the registry's records: a project's name, a dash, and the
//! handle of its process group.

use crate::numeral::{
    decimal, is_digit, lemma_numeral, lemma_parse_decimal, numeral, parse, read, render,
};
use crate::text::copy;
use vstd::prelude::*;
use vstd::string::*;

verus! {

/// The name of the record of the instance of `name` under the handle `pid`.
pub open spec fn record_name(name: Seq<char>, pid: i32) -> Seq<char> {
    name + seq!['-'] + decimal(pid as int)
}

/// Whether position `i` holds the last dash of `s`.
pub open spec fn last_dash_at(s: Seq<char>, i: int) -> bool {
    &&& 0 <= i < s.len()
    &&& s[i] == '-'
    &&& forall|j: int| i < j < s.len() ==> s[j] != '-'
}

/// The text before the last dash and the text after it.
pub open spec fn split_record_name(s: Seq<char>) -> Option<(Seq<char>, Seq<char>)> {
    if exists|i: int| last_dash_at(s, i) {
        let i = choose|i: int| last_dash_at(s, i);
        Some((s.take(i), s.skip(i + 1)))
    } else {
        None
    }
}

/// The project's name and the handle that a record's name holds.
pub open spec fn record_key(s: Seq<char>) -> Option<(Seq<char>, i32)> {
    match split_record_name(s) {
        Some((name, handle)) => match parse(handle) {
            Some(pid) => Some((name, pid)),
            None => None,
        },
        None => None,
    }
}

/// A position that is found to hold the last dash is where the name is split.
pub proof fn lemma_split_at(s: Seq<char>, i: int)
    requires
        last_dash_at(s, i),
    ensures
        split_record_name(s) == Some((s.take(i), s.skip(i + 1))),
{
    let k = choose|k: int| last_dash_at(s, k);
    assert(last_dash_at(s, k));
    assert(k == i) by {
        if k < i {
            assert(s[i] != '-');
        } else if i < k {
            assert(s[k] != '-');
        }
    }
}

/// The name of a record leads back to the name and the handle it was made
/// of, for every handle that is not negative.
pub proof fn lemma_record_name_key(name: Seq<char>, pid: i32)
    requires
        pid >= 0,
    ensures
        record_key(record_name(name, pid)) == Some((name, pid)),
{
    let s = record_name(name, pid);
    let i = name.len() as int;
    lemma_numeral(pid as nat);
    assert(s[i] == '-');
    assert forall|j: int| i < j < s.len() implies s[j] != '-' by {
        assert(s[j] == numeral(pid as nat)[j - i - 1]);
        assert(is_digit(numeral(pid as nat)[j - i - 1]));
    }
    lemma_split_at(s, i);
    assert(s.take(i) =~= name);
    assert(s.skip(i + 1) =~= decimal(pid as int));
    lemma_parse_decimal(pid);
}

/// The name of the record of the instance of `name` under the handle `pid`.
pub fn file_name(name: &String, pid: i32) -> (r: String)
    ensures
        r@ == record_name(name@, pid),
{
    proof {
        reveal_strlit("-");
    }
    let mut out = copy(name);
    out.append("-");
    let digits = render(pid);
    out.append(digits.as_str());
    assert(out@ =~= record_name(name@, pid));
    out
}

/// Splits a record's name at its last dash: the project's name before it,
/// and the text of the handle behind it.
pub fn split_file_name(s: &String) -> (r: Option<(String, String)>)
    ensures
        match split_record_name(s@) {
            Some((name, handle)) => r matches Some((n, h)) && n@ == name && h@ == handle,
            None => r is None,
        },
{
    let text = s.as_str();
    let n = text.unicode_len();
    let mut i: usize = n;
    while i > 0
        invariant
            i <= n,
            n == text@.len(),
            text@ == s@,
            forall|j: int| i <= j < n ==> text@[j] != '-',
        decreases i,
    {
        i -= 1;
        if text.get_char(i) == '-' {
            proof {
                lemma_split_at(text@, i as int);
            }
            let name = text.substring_char(0, i);
            let handle = text.substring_char(i + 1, n);
            assert(name@ =~= text@.take(i as int));
            assert(handle@ =~= text@.skip(i as int + 1));
            return Some((String::from_str(name), String::from_str(handle)));
        }
    }
    assert(!exists|k: int| last_dash_at(text@, k));
    None
}

/// Splits a record's name at its last dash and reads the handle behind it.
pub fn parse_file_name(s: &String) -> (r: Option<(String, i32)>)
    ensures
        match record_key(s@) {
            Some((name, pid)) => r matches Some((n, p)) && n@ == name && p == pid,
            None => r is None,
        },
{
    match split_file_name(s) {
        Some((name, handle)) => match read(handle.as_str()) {
            Some(pid) => Some((name, pid)),
            None => None,
        },
        None => None,
    }
}

} // verus!
