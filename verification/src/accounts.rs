//! What is told of an account by its texts: whether a directory name is an
//! account id, whether a file is a config file, which name a profile file
//! gives the account, and where the account stands in a list.

use crate::text::{chars_of, push_chars};
use vstd::prelude::*;
use vstd::slice::slice_subrange;

verus! {

/// The key of the line that names an account in its profile file.
pub open spec fn name_key() -> Seq<char> {
    seq!['P', 'e', 'r', 's', 'o', 'n', 'a', 'N', 'a', 'm', 'e']
}

/// The character that stands around a value.
pub const QUOTE: char = '"';

/// The character that ends a line.
pub const NEWLINE: char = '\n';

/// A decimal digit.
pub open spec fn is_digit(c: char) -> bool {
    '0' <= c <= '9'
}

/// The text ends with `suffix`.
pub open spec fn ends_with(text: Seq<char>, suffix: Seq<char>) -> bool {
    text.len() >= suffix.len() && text.skip(text.len() - suffix.len()) == suffix
}

/// `needle` stands in `text` from place `at` on.
pub open spec fn occurs_at(text: Seq<char>, needle: Seq<char>, at: int) -> bool {
    0 <= at && at + needle.len() <= text.len() && text.subrange(at, at + needle.len()) == needle
}

/// `needle` stands somewhere in `text`.
pub open spec fn contains(text: Seq<char>, needle: Seq<char>) -> bool {
    exists|at: int| occurs_at(text, needle, at)
}

/// The lines of a text: what stands between its newlines.
pub open spec fn lines(text: Seq<char>) -> Seq<Seq<char>>
    decreases text.len(),
{
    if text.len() == 0 {
        seq![Seq::<char>::empty()]
    } else {
        let before = lines(text.drop_last());
        if text.last() == NEWLINE {
            before.push(Seq::<char>::empty())
        } else {
            before.drop_last().push(before.last().push(text.last()))
        }
    }
}

/// `c` stands in `text`.
pub open spec fn has_char(text: Seq<char>, c: char) -> bool {
    exists|i: int| 0 <= i < text.len() && #[trigger] text[i] == c
}

/// The first place in `text` where `c` stands; the length of `text` where it
/// stands nowhere.
pub open spec fn first_place(text: Seq<char>, c: char) -> int
    decreases text.len(),
{
    if text.len() == 0 || text[0] == c {
        0
    } else {
        1 + first_place(text.skip(1), c)
    }
}

/// The last place in `text` where `c` stands; -1 where it stands nowhere.
pub open spec fn last_place(text: Seq<char>, c: char) -> int
    decreases text.len(),
{
    if text.len() == 0 {
        -1
    } else if text.last() == c {
        text.len() - 1
    } else {
        last_place(text.drop_last(), c)
    }
}

/// The name that a line gives: what stands between its first and its last
/// quote, where the line holds the key and two quotes, and what stands
/// between them is neither empty nor the key itself.
#[verifier::opaque]
pub open spec fn line_name(line: Seq<char>) -> Option<Seq<char>> {
    let first = first_place(line, QUOTE);
    let last = last_place(line, QUOTE);
    let name = line.subrange(first + 1, last);
    if contains(line, name_key()) && has_char(line, QUOTE) && first != last && name.len() > 0
        && name != name_key() {
        Some(name)
    } else {
        None
    }
}

/// The name that the first of the lines gives that gives one.
pub open spec fn first_name(all: Seq<Seq<char>>) -> Option<Seq<char>>
    decreases all.len(),
{
    if all.len() == 0 {
        None
    } else {
        match first_name(all.drop_last()) {
            Some(name) => Some(name),
            None => line_name(all.last()),
        }
    }
}

/// `a` stands before `b` in the order of a dictionary, characters compared
/// by their code points: at the first place where the two differ `a` has
/// the lesser character, or `a` ends there and `b` does not.
pub open spec fn text_precedes(a: Seq<char>, b: Seq<char>) -> bool
    decreases a.len(),
{
    if b.len() == 0 {
        false
    } else if a.len() == 0 {
        true
    } else if a[0] != b[0] {
        (a[0] as u32) < (b[0] as u32)
    } else {
        text_precedes(a.skip(1), b.skip(1))
    }
}

/// Where an account stands in a list: those with a config first, and among
/// equals the lesser id first.
pub open spec fn precedes(a_has_config: bool, a_id: Seq<char>, b_has_config: bool, b_id: Seq<
    char,
>) -> bool {
    if a_has_config != b_has_config {
        a_has_config
    } else {
        text_precedes(a_id, b_id)
    }
}

/// Whether an account is shown under a filter: not where only accounts with
/// a config are asked for and it has none; else where the filter stands in
/// its id or in its name.
pub open spec fn shown(
    has_config: bool,
    id: Seq<char>,
    name: Option<Seq<char>>,
    filter: Seq<char>,
    only_with_config: bool,
) -> bool {
    (has_config || !only_with_config) && (contains(id, filter) || (name matches Some(n)
        && contains(n, filter)))
}

/// Whether `needle` stands somewhere in `text`.
fn stands_in(text: &[char], needle: &[char]) -> (r: bool)
    ensures
        r <==> contains(text@, needle@),
{
    let n = text.len();
    let m = needle.len();
    if m > n {
        return false;
    }
    let mut at: usize = 0;
    while at <= n - m
        invariant
            n == text@.len(),
            m == needle@.len(),
            m <= n,
            at <= n - m + 1,
            forall|k: int| 0 <= k < at ==> !occurs_at(text@, needle@, k),
        decreases n - m + 1 - at,
    {
        let mut same: usize = 0;
        while same < m && text[at + same] == needle[same]
            invariant
                n == text@.len(),
                m == needle@.len(),
                at + m <= n,
                same <= m,
                forall|j: int| 0 <= j < same ==> text@[at + j] == needle@[j],
            decreases m - same,
        {
            same = same + 1;
        }
        if same == m {
            proof {
                assert(text@.subrange(at as int, at + m) =~= needle@);
                assert(occurs_at(text@, needle@, at as int));
            }
            return true;
        }
        proof {
            if occurs_at(text@, needle@, at as int) {
                assert(text@.subrange(at as int, at + m)[same as int] == text@[at + same]);
            }
        }
        at = at + 1;
    }
    false
}

/// Whether a directory name is an account id: decimal digits and nothing
/// else.
pub fn is_account_id(name: &str) -> (r: bool)
    ensures
        r <==> forall|i: int| 0 <= i < name@.len() ==> is_digit(#[trigger] name@[i]),
{
    let chars = chars_of(name);
    let mut i: usize = 0;
    while i < chars.len()
        invariant
            i <= chars.len(),
            chars@ == name@,
            forall|k: int| 0 <= k < i ==> is_digit(#[trigger] chars@[k]),
        decreases chars.len() - i,
    {
        let c = chars[i];
        if !('0' <= c && c <= '9') {
            return false;
        }
        i = i + 1;
    }
    true
}

/// Compares the end of a text with a suffix of four characters.
fn ends_with_four(text: &[char], a: char, b: char, c: char, d: char) -> (r: bool)
    ensures
        r <==> ends_with(text@, seq![a, b, c, d]),
{
    let n = text.len();
    if n < 4 {
        return false;
    }
    let r = text[n - 4] == a && text[n - 3] == b && text[n - 2] == c && text[n - 1] == d;
    proof {
        let tail = text@.skip(n - 4);
        assert(tail[0] == text@[n - 4] && tail[1] == text@[n - 3] && tail[2] == text@[n - 2]
            && tail[3] == text@[n - 1]);
        if r {
            assert(tail =~= seq![a, b, c, d]);
        }
    }
    r
}

/// Whether a file is a config file: its name ends with `.cfg` or `.txt`.
pub fn is_config_file(name: &str) -> (r: bool)
    ensures
        r <==> ends_with(name@, seq!['.', 'c', 'f', 'g']) || ends_with(
            name@,
            seq!['.', 't', 'x', 't'],
        ),
{
    let chars = chars_of(name);
    ends_with_four(chars.as_slice(), '.', 'c', 'f', 'g') || ends_with_four(
        chars.as_slice(),
        '.',
        't',
        'x',
        't',
    )
}

/// The first place where `c` stands in `text`.
fn find_first(text: &[char], c: char) -> (r: Option<usize>)
    ensures
        r is Some <==> has_char(text@, c),
        r matches Some(at) ==> at == first_place(text@, c) && at < text@.len() && text@[at as int]
            == c,
{
    let mut i: usize = 0;
    proof {
        assert(text@.skip(0) =~= text@);
    }
    while i < text.len()
        invariant
            i <= text.len(),
            first_place(text@, c) == i + first_place(text@.skip(i as int), c),
            forall|j: int| 0 <= j < i ==> #[trigger] text@[j] != c,
        decreases text.len() - i,
    {
        if text[i] == c {
            return Some(i);
        }
        proof {
            assert(text@.skip(i as int).skip(1) =~= text@.skip(i + 1));
        }
        i = i + 1;
    }
    None
}

/// The last place where `c` stands in `text`.
fn find_last(text: &[char], c: char) -> (r: Option<usize>)
    ensures
        r is Some <==> has_char(text@, c),
        r matches Some(at) ==> at == last_place(text@, c) && at < text@.len() && forall|j: int|
            at < j < text@.len() ==> #[trigger] text@[j] != c,
{
    let mut i: usize = text.len();
    proof {
        assert(text@.take(i as int) =~= text@);
    }
    while i > 0
        invariant
            i <= text.len(),
            last_place(text@, c) == last_place(text@.take(i as int), c),
            forall|j: int| i <= j < text@.len() ==> #[trigger] text@[j] != c,
        decreases i,
    {
        i = i - 1;
        if text[i] == c {
            return Some(i);
        }
        proof {
            assert(text@.take(i + 1).drop_last() =~= text@.take(i as int));
        }
    }
    None
}

/// Whether two texts are the same.
fn same_text(a: &[char], b: &[char]) -> (r: bool)
    ensures
        r <==> a@ == b@,
{
    if a.len() != b.len() {
        return false;
    }
    let mut i: usize = 0;
    while i < a.len()
        invariant
            i <= a.len(),
            a@.len() == b@.len(),
            forall|j: int| 0 <= j < i ==> a@[j] == b@[j],
        decreases a.len() - i,
    {
        if a[i] != b[i] {
            return false;
        }
        i = i + 1;
    }
    proof {
        assert(a@ =~= b@);
    }
    true
}

/// The key as characters.
fn key_chars() -> (r: [char; 11])
    ensures
        r@ == name_key(),
{
    let key = ['P', 'e', 'r', 's', 'o', 'n', 'a', 'N', 'a', 'm', 'e'];
    proof {
        assert(key@ =~= name_key());
    }
    key
}

/// The places of the first and the last quote of a line that has one.
fn quotes(line: &[char]) -> (r: Option<(usize, usize)>)
    ensures
        r is Some <==> has_char(line@, QUOTE),
        r matches Some((first, last)) ==> first == first_place(line@, QUOTE) && last
            == last_place(line@, QUOTE) && first <= last < line@.len(),
{
    let first = match find_first(line, QUOTE) {
        Some(first) => first,
        None => {
            return None;
        },
    };
    let last = match find_last(line, QUOTE) {
        Some(last) => last,
        None => {
            return None;
        },
    };
    Some((first, last))
}

/// The name that a line gives, if it gives one.
fn name_in_line(line: &[char]) -> (r: Option<Vec<char>>)
    ensures
        match r {
            Some(name) => line_name(line@) == Some(name@),
            None => line_name(line@) is None,
        },
{
    let key = key_chars();
    let has_key = stands_in(line, key.as_slice());
    let (first, last) = match quotes(line) {
        Some(places) => places,
        None => {
            assert(line_name(line@) is None) by {
                reveal(line_name);
            }
            return None;
        },
    };
    let inner = slice_subrange(line, if first == last {
        first
    } else {
        first + 1
    }, last);
    let is_key = same_text(inner, key.as_slice());
    if !has_key || first == last || inner.len() == 0 || is_key {
        assert(line_name(line@) is None) by {
            reveal(line_name);
        }
        return None;
    }
    let mut name: Vec<char> = Vec::new();
    let mut i: usize = 0;
    while i < inner.len()
        invariant
            i <= inner.len(),
            name@ == inner@.take(i as int),
        decreases inner.len() - i,
    {
        name.push(inner[i]);
        i = i + 1;
        proof {
            assert(inner@.take(i as int) =~= inner@.take(i - 1).push(inner@[i - 1]));
        }
    }
    assert(line_name(line@) == Some(name@)) by {
        reveal(line_name);
        assert(inner@.take(i as int) =~= inner@);
    }
    Some(name)
}

/// The name that a profile file gives an account: the name that the first
/// of its lines gives that gives one, and none where no line does.
pub fn persona_name(content: &str) -> (r: Option<String>)
    ensures
        match r {
            Some(name) => first_name(lines(content@)) == Some(name@),
            None => first_name(lines(content@)) is None,
        },
{
    let chars = chars_of(content);
    let n = chars.len();
    let mut found: Option<Vec<char>> = None;
    let mut start: usize = 0;
    let mut i: usize = 0;
    let ghost mut done: Seq<Seq<char>> = Seq::empty();
    proof {
        assert(chars@.take(0) =~= Seq::<char>::empty());
        assert(chars@.subrange(0, 0) =~= Seq::<char>::empty());
        assert(lines(chars@.take(0)) =~= done.push(chars@.subrange(0, 0)));
    }
    while i < n
        invariant
            n == chars@.len(),
            start <= i <= n,
            lines(chars@.take(i as int)) == done.push(chars@.subrange(start as int, i as int)),
            match found {
                Some(name) => first_name(done) == Some(name@),
                None => first_name(done) is None,
            },
        decreases n - i,
    {
        let ghost before = lines(chars@.take(i as int));
        let ghost line = chars@.subrange(start as int, i as int);
        proof {
            assert(chars@.take(i + 1).drop_last() =~= chars@.take(i as int));
            assert(before.drop_last() =~= done);
        }
        if chars[i] == NEWLINE {
            if found.is_none() {
                found = name_in_line(slice_subrange(chars.as_slice(), start, i));
            }
            proof {
                assert(done.push(line).drop_last() =~= done);
                done = done.push(line);
                assert(chars@.subrange(i + 1, i + 1) =~= Seq::<char>::empty());
            }
            start = i + 1;
        } else {
            proof {
                assert(line.push(chars@[i as int]) =~= chars@.subrange(start as int, i + 1));
            }
        }
        i = i + 1;
    }
    let ghost last = chars@.subrange(start as int, n as int);
    proof {
        assert(chars@.take(n as int) =~= chars@);
        assert(done.push(last).drop_last() =~= done);
    }
    let chosen = match found {
        Some(name) => Some(name),
        None => name_in_line(slice_subrange(chars.as_slice(), start, n)),
    };
    match chosen {
        Some(name) => {
            let mut text = String::new();
            push_chars(&mut text, name.as_slice());
            proof {
                assert(text@ =~= name@);
            }
            Some(text)
        },
        None => None,
    }
}

/// Whether `a` stands before `b` in the order of a dictionary.
fn text_before(a: &[char], b: &[char]) -> (r: bool)
    ensures
        r <==> text_precedes(a@, b@),
{
    let mut k: usize = 0;
    proof {
        assert(a@.skip(0) =~= a@);
        assert(b@.skip(0) =~= b@);
    }
    while k < a.len() && k < b.len() && a[k] == b[k]
        invariant
            k <= a.len(),
            k <= b.len(),
            text_precedes(a@, b@) == text_precedes(a@.skip(k as int), b@.skip(k as int)),
        decreases a.len() - k,
    {
        proof {
            assert(a@.skip(k as int).skip(1) =~= a@.skip(k + 1));
            assert(b@.skip(k as int).skip(1) =~= b@.skip(k + 1));
        }
        k = k + 1;
    }
    if k == b.len() {
        false
    } else if k == a.len() {
        true
    } else {
        (a[k] as u32) < (b[k] as u32)
    }
}

/// Whether one account stands before another in a list: those with a config
/// first, and among equals the lesser id first.
pub fn account_precedes(a_has_config: bool, a_id: &str, b_has_config: bool, b_id: &str) -> (r:
    bool)
    ensures
        r <==> precedes(a_has_config, a_id@, b_has_config, b_id@),
{
    if a_has_config != b_has_config {
        a_has_config
    } else {
        let a = chars_of(a_id);
        let b = chars_of(b_id);
        text_before(a.as_slice(), b.as_slice())
    }
}

/// Whether an account is shown under a filter. Texts are compared as they
/// are given: who wants letters of either case to match hands all of them
/// over in one case.
pub fn account_is_shown(
    has_config: bool,
    id: &str,
    name: Option<&str>,
    filter: &str,
    only_with_config: bool,
) -> (r: bool)
    ensures
        r <==> shown(
            has_config,
            id@,
            match name {
                Some(n) => Some(n@),
                None => None,
            },
            filter@,
            only_with_config,
        ),
{
    if only_with_config && !has_config {
        return false;
    }
    let wanted = chars_of(filter);
    let id_chars = chars_of(id);
    if stands_in(id_chars.as_slice(), wanted.as_slice()) {
        return true;
    }
    match name {
        Some(n) => {
            let name_chars = chars_of(n);
            stands_in(name_chars.as_slice(), wanted.as_slice())
        },
        None => false,
    }
}

} // verus!
