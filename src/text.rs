use vstd::prelude::*;
use vstd::string::*;

verus! {

broadcast use vstd::string::group_string_axioms;

/// Characters with Unicode's `White_Space` property.
pub open spec fn is_white_space(c: char) -> bool {
    let u = c as u32;
    (0x9 <= u <= 0xd) || u == 0x20 || u == 0x85 || u == 0xa0 || u == 0x1680 || (0x2000 <= u
        <= 0x200a) || u == 0x2028 || u == 0x2029 || u == 0x202f || u == 0x205f || u == 0x3000
}

pub open spec fn trim_start(s: Seq<char>) -> Seq<char>
    decreases s.len(),
{
    if s.len() > 0 && is_white_space(s[0]) {
        trim_start(s.drop_first())
    } else {
        s
    }
}

pub open spec fn trim_end(s: Seq<char>) -> Seq<char>
    decreases s.len(),
{
    if s.len() > 0 && is_white_space(s.last()) {
        trim_end(s.drop_last())
    } else {
        s
    }
}

/// `s` without its leading and trailing white space.
pub open spec fn trimmed(s: Seq<char>) -> Seq<char> {
    trim_end(trim_start(s))
}

/// Relies on `str::trim`: it removes leading and trailing characters that have
/// the `White_Space` property.
#[verifier::external_body]
pub(crate) fn trim_whitespace(s: &str) -> (r: String)
    ensures
        r@ == trimmed(s@),
{
    s.trim().to_string()
}

/// The upper-case form of a string, as Unicode's case mapping gives it.
pub uninterp spec fn uppercase_of(s: Seq<char>) -> Seq<char>;

/// Relies on `str::to_uppercase`: the result depends on the characters alone.
#[verifier::external_body]
pub(crate) fn to_upper(s: &str) -> (r: String)
    ensures
        r@ == uppercase_of(s@),
{
    s.to_uppercase()
}

/// The number of characters of `s`.
pub fn char_count(s: &String) -> (r: usize)
    ensures
        r == s@.len(),
{
    s.as_str().unicode_len()
}

/// The 26 letters of the Latin alphabet, in order.
pub open spec fn alphabet() -> Seq<char> {
    seq![
        'A', 'B', 'C', 'D', 'E', 'F', 'G', 'H', 'I', 'J', 'K', 'L', 'M',
        'N', 'O', 'P', 'Q', 'R', 'S', 'T', 'U', 'V', 'W', 'X', 'Y', 'Z',
    ]
}

/// The `i`-th letter of the alphabet, as a one-character string.
pub open spec fn letter(i: int) -> Seq<char> {
    seq![alphabet()[i]]
}

/// The views of a list of strings.
pub open spec fn strings_view(v: Seq<String>) -> Seq<Seq<char>> {
    v.map_values(|s: String| s@)
}

/// Every letter of the alphabet is in `a` or in `b`.
pub open spec fn covers_letters(a: Seq<Seq<char>>, b: Seq<Seq<char>>) -> bool {
    forall|i: int| 0 <= i < 26 ==> a.contains(#[trigger] letter(i)) || b.contains(letter(i))
}

/// Every letter of the alphabet is in `a` or in `b`.
pub open spec fn covers_alphabet(a: Seq<String>, b: Seq<String>) -> bool {
    covers_letters(strings_view(a), strings_view(b))
}

/// The letters of the alphabet, in order, that are neither in `a` nor in `b`,
/// among the first `n`.
pub open spec fn missing_letters(a: Seq<Seq<char>>, b: Seq<Seq<char>>, n: int) -> Seq<Seq<char>>
    decreases n,
{
    if n <= 0 {
        Seq::empty()
    } else {
        let m = missing_letters(a, b, n - 1);
        if !a.contains(letter(n - 1)) && !b.contains(letter(n - 1)) {
            m.push(letter(n - 1))
        } else {
            m
        }
    }
}

/// The one-letter strings of each character of `w`, in upper case.
pub open spec fn word_letters(w: Seq<char>) -> Seq<Seq<char>> {
    w.map_values(|c: char| uppercase_of(seq![c]))
}

/// `a` followed by the strings of `b` that it does not hold yet, each once.
pub open spec fn add_new(a: Seq<Seq<char>>, b: Seq<Seq<char>>) -> Seq<Seq<char>>
    decreases b.len(),
{
    if b.len() == 0 {
        a
    } else {
        let r = add_new(a, b.drop_last());
        if r.contains(b.last()) {
            r
        } else {
            r.push(b.last())
        }
    }
}

/// The one-character string of the `i`-th letter of the alphabet.
pub fn letter_string(i: usize) -> (r: String)
    requires
        i < 26,
    ensures
        r@ == letter(i as int),
{
    let letters = "ABCDEFGHIJKLMNOPQRSTUVWXYZ";
    proof {
        reveal_strlit("ABCDEFGHIJKLMNOPQRSTUVWXYZ");
    }
    let one = letters.substring_char(i, i + 1);
    assert(one@ =~= letter(i as int));
    one.to_string()
}

/// Whether `v` holds a string equal to `s`.
pub fn contains_string(v: &[String], s: &String) -> (r: bool)
    ensures
        r == strings_view(v@).contains(s@),
{
    let mut i: usize = 0;
    while i < v.len()
        invariant
            i <= v.len(),
            forall|j: int| 0 <= j < i ==> v@[j]@ != s@,
        decreases v.len() - i,
    {
        if v[i] == *s {
            assert(strings_view(v@)[i as int] == s@);
            return true;
        }
        i = i + 1;
    }
    proof {
        if strings_view(v@).contains(s@) {
            let k = choose|k: int| 0 <= k < strings_view(v@).len() && strings_view(v@)[k] == s@;
            assert(v@[k]@ == s@);
        }
    }
    false
}

/// Whether every letter of the alphabet is in `a` or in `b`.
pub fn letters_complete(a: &Vec<String>, b: &Vec<String>) -> (r: bool)
    ensures
        r == covers_alphabet(a@, b@),
{
    let mut i: usize = 0;
    while i < 26
        invariant
            i <= 26,
            forall|j: int|
                0 <= j < i ==> strings_view(a@).contains(#[trigger] letter(j)) || strings_view(
                    b@,
                ).contains(letter(j)),
        decreases 26 - i,
    {
        let l = letter_string(i);
        if !contains_string(a.as_slice(), &l) && !contains_string(b.as_slice(), &l) {
            return false;
        }
        i = i + 1;
    }
    true
}

/// The letters of the alphabet that are neither in `a` nor in `b`.
pub fn letters_missing(a: &Vec<String>, b: &Vec<String>) -> (r: Vec<String>)
    ensures
        strings_view(r@) == missing_letters(strings_view(a@), strings_view(b@), 26),
{
    let mut r: Vec<String> = Vec::new();
    let mut i: usize = 0;
    while i < 26
        invariant
            i <= 26,
            strings_view(r@) == missing_letters(strings_view(a@), strings_view(b@), i as int),
        decreases 26 - i,
    {
        let l = letter_string(i);
        let ghost before = r@;
        if !contains_string(a.as_slice(), &l) && !contains_string(b.as_slice(), &l) {
            r.push(l);
            assert(strings_view(r@) == strings_view(before).push(letter(i as int)));
        }
        i = i + 1;
    }
    r
}

/// Adds to `used` the upper-case letter of each character of `word` that it
/// does not hold yet.
pub fn add_word_letters(used: &mut Vec<String>, word: &String)
    ensures
        strings_view(final(used)@) == add_new(strings_view(old(used)@), word_letters(word@)),
{
    let ghost start = strings_view(used@);
    let ghost wl = word_letters(word@);
    let n = char_count(word);
    let mut i: usize = 0;
    while i < n
        invariant
            n == word@.len(),
            i <= n,
            wl == word_letters(word@),
            strings_view(used@) == add_new(start, wl.subrange(0, i as int)),
        decreases n - i,
    {
        let one = word.as_str().substring_char(i, i + 1);
        assert(one@ =~= seq![word@[i as int]]);
        let letter_str = to_upper(one);
        assert(wl.subrange(0, i as int + 1).drop_last() == wl.subrange(0, i as int));
        let ghost before = used@;
        if !contains_string(used.as_slice(), &letter_str) {
            used.push(letter_str);
            assert(strings_view(used@) == strings_view(before).push(letter_str@));
        }
        i = i + 1;
    }
    assert(wl.subrange(0, n as int) == wl);
}

} // verus!
