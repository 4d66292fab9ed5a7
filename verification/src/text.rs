//! Paths and names: the strings that say where in a value or schema a check
//! took place.

use vstd::prelude::*;
use vstd::string::*;

verus! {

/// The character of a decimal digit.
pub open spec fn digit(d: nat) -> char {
    if d == 0 {
        '0'
    } else if d == 1 {
        '1'
    } else if d == 2 {
        '2'
    } else if d == 3 {
        '3'
    } else if d == 4 {
        '4'
    } else if d == 5 {
        '5'
    } else if d == 6 {
        '6'
    } else if d == 7 {
        '7'
    } else if d == 8 {
        '8'
    } else {
        '9'
    }
}

/// The decimal numeral of `n`, without leading zeros.
pub open spec fn decimal(n: nat) -> Seq<char>
    decreases n,
{
    if n < 10 {
        seq![digit(n)]
    } else {
        decimal(n / 10).push(digit(n % 10))
    }
}

/// The path of item `index` of the array at `path`.
pub open spec fn item_path(path: Seq<char>, index: nat) -> Seq<char> {
    path + seq!['['] + decimal(index) + seq![']']
}

/// The path of the member stored under `key` in the object at `path`.
pub open spec fn member_path(path: Seq<char>, key: Seq<char>) -> Seq<char> {
    path + seq!['.'] + key
}

/// The last position before `end` at which `c` stands in `s`.
pub open spec fn last_index_of(s: Seq<char>, c: char, end: int) -> Option<int>
    decreases end,
{
    if end <= 0 || end > s.len() {
        None
    } else if s[end - 1] == c {
        Some(end - 1)
    } else {
        last_index_of(s, c, end - 1)
    }
}

/// What follows the last `/` of a reference; `None` where it has no `/`.
pub open spec fn reference_name(reference: Seq<char>) -> Option<Seq<char>> {
    match last_index_of(reference, '/', reference.len() as int) {
        Some(i) => Some(reference.subrange(i + 1, reference.len() as int)),
        None => None,
    }
}

fn digit_str(d: usize) -> (r: &'static str)
    requires
        d < 10,
    ensures
        r@ == seq![digit(d as nat)],
{
    proof {
        reveal_strlit("0");
        reveal_strlit("1");
        reveal_strlit("2");
        reveal_strlit("3");
        reveal_strlit("4");
        reveal_strlit("5");
        reveal_strlit("6");
        reveal_strlit("7");
        reveal_strlit("8");
        reveal_strlit("9");
    }
    let r = if d == 0 {
        "0"
    } else if d == 1 {
        "1"
    } else if d == 2 {
        "2"
    } else if d == 3 {
        "3"
    } else if d == 4 {
        "4"
    } else if d == 5 {
        "5"
    } else if d == 6 {
        "6"
    } else if d == 7 {
        "7"
    } else if d == 8 {
        "8"
    } else {
        "9"
    };
    assert(r@ =~= seq![digit(d as nat)]);
    r
}

/// The decimal numeral of `n`.
pub fn decimal_string(n: usize) -> (r: String)
    ensures
        r@ == decimal(n as nat),
    decreases n,
{
    if n < 10 {
        String::from_str(digit_str(n))
    } else {
        let mut s = decimal_string(n / 10);
        s.append(digit_str(n % 10));
        assert(s@ =~= decimal(n as nat));
        s
    }
}

/// `path` followed by `suffix`.
pub fn join(path: &str, suffix: &str) -> (r: String)
    ensures
        r@ == path@ + suffix@,
{
    let mut s = String::from_str(path);
    s.append(suffix);
    s
}

/// The path of item `index` of the array at `path`.
pub fn item_path_string(path: &str, index: usize) -> (r: String)
    ensures
        r@ == item_path(path@, index as nat),
{
    proof {
        reveal_strlit("[");
        reveal_strlit("]");
    }
    let mut s = String::from_str(path);
    s.append("[");
    let numeral = decimal_string(index);
    s.append(numeral.as_str());
    s.append("]");
    assert(s@ =~= item_path(path@, index as nat));
    s
}

/// The path of the member stored under `key` in the object at `path`.
pub fn member_path_string(path: &str, key: &str) -> (r: String)
    ensures
        r@ == member_path(path@, key@),
{
    proof {
        reveal_strlit(".");
    }
    let mut s = String::from_str(path);
    s.append(".");
    s.append(key);
    assert(s@ =~= member_path(path@, key@));
    s
}

/// What follows the last `/` of `reference`; `None` where it has no `/`.
pub fn reference_name_string(reference: &str) -> (r: Option<String>)
    ensures
        match r {
            Some(name) => reference_name(reference@) == Some(name@),
            None => reference_name(reference@) is None,
        },
{
    let n = reference.unicode_len();
    let mut last: Option<usize> = None;
    let mut i: usize = 0;
    while i < n
        invariant
            i <= n,
            n == reference@.len(),
            match last {
                Some(k) => last_index_of(reference@, '/', i as int) == Some(k as int) && k < i,
                None => last_index_of(reference@, '/', i as int) is None,
            },
        decreases n - i,
    {
        if reference.get_char(i) == '/' {
            last = Some(i);
        }
        i += 1;
    }
    match last {
        Some(k) => Some(String::from_str(reference.substring_char(k + 1, n))),
        None => None,
    }
}

} // verus!
