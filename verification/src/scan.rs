//! Cutting text into parts.
use vstd::prelude::*;
use vstd::slice::slice_subrange;

verus! {

/// Whether a character is white space, as Unicode has it.
pub open spec fn is_white(c: char) -> bool {
    let u = c as u32;
    ||| 0x09 <= u <= 0x0D
    ||| u == 0x20
    ||| u == 0x85
    ||| u == 0xA0
    ||| u == 0x1680
    ||| 0x2000 <= u <= 0x200A
    ||| 0x2028 <= u <= 0x2029
    ||| u == 0x202F
    ||| u == 0x205F
    ||| u == 0x3000
}

fn white(c: char) -> (r: bool)
    ensures
        r == is_white(c),
{
    let u: u32 = c as u32;
    (0x09 <= u && u <= 0x0D) || u == 0x20 || u == 0x85 || u == 0xA0 || u == 0x1680 || (0x2000 <= u
        && u <= 0x200A) || (0x2028 <= u && u <= 0x2029) || u == 0x202F || u == 0x205F || u == 0x3000
}

/// Number of characters of `s` before the first `c`; all if there is none.
pub open spec fn upto(s: Seq<char>, c: char) -> int
    decreases s.len(),
{
    if s.len() == 0 || s[0] == c {
        0
    } else {
        1 + upto(s.skip(1), c)
    }
}

/// Number of characters of `s` before the first white space; all if there is
/// none.
pub open spec fn word_len(s: Seq<char>) -> int
    decreases s.len(),
{
    if s.len() == 0 || is_white(s[0]) {
        0
    } else {
        1 + word_len(s.skip(1))
    }
}

/// Number of white-space characters at the start of `s`.
pub open spec fn white_len(s: Seq<char>) -> int
    decreases s.len(),
{
    if s.len() == 0 || !is_white(s[0]) {
        0
    } else {
        1 + white_len(s.skip(1))
    }
}

/// `s` without the white space at its end.
pub open spec fn end_trimmed(s: Seq<char>) -> Seq<char>
    decreases s.len(),
{
    if s.len() > 0 && is_white(s.last()) {
        end_trimmed(s.drop_last())
    } else {
        s
    }
}

/// `s` without the white space at its start and at its end.
pub open spec fn trimmed(s: Seq<char>) -> Seq<char> {
    end_trimmed(s.skip(white_len(s)))
}

/// The `n`th word of `s`, counted from 0; words are parted by white space.
pub open spec fn nth_word(s: Seq<char>, n: nat) -> Option<Seq<char>>
    decreases n,
{
    let rest = s.skip(white_len(s));
    if rest.len() == 0 {
        None
    } else if n == 0 {
        Some(rest.take(word_len(rest)))
    } else {
        nth_word(rest.skip(word_len(rest)), (n - 1) as nat)
    }
}

/// What stands before and behind the first `c`.
pub open spec fn split_once(s: Seq<char>, c: char) -> Option<(Seq<char>, Seq<char>)> {
    if upto(s, c) < s.len() {
        Some((s.take(upto(s, c)), s.skip(upto(s, c) + 1)))
    } else {
        None
    }
}

/// Number of characters of `s` before the first `part`; none if it is not there.
pub open spec fn find(s: Seq<char>, part: Seq<char>) -> Option<int>
    decreases s.len(),
{
    if s.len() < part.len() {
        None
    } else if s.take(part.len() as int) == part {
        Some(0)
    } else if s.len() == 0 {
        None
    } else {
        match find(s.skip(1), part) {
            Some(i) => Some(i + 1),
            None => None,
        }
    }
}

/// What stands between the first and the second `part`, or behind the only one;
/// nothing if there is none.
pub open spec fn second_part(s: Seq<char>, part: Seq<char>) -> Seq<char> {
    match find(s, part) {
        Some(i) => {
            let rest = s.skip(i + part.len());
            match find(rest, part) {
                Some(j) => rest.take(j),
                None => rest,
            }
        },
        None => seq![],
    }
}

/// The number of characters before the first `c` lies within the text.
pub proof fn lemma_upto(s: Seq<char>, c: char)
    ensures
        0 <= upto(s, c) <= s.len(),
        upto(s, c) < s.len() ==> s[upto(s, c)] == c,
        forall|i: int| 0 <= i < upto(s, c) ==> s[i] != c,
    decreases s.len(),
{
    if s.len() > 0 && s[0] != c {
        let rest = s.skip(1);
        lemma_upto(rest, c);
        assert forall|i: int| 0 <= i < upto(s, c) implies s[i] != c by {
            if i > 0 {
                assert(rest[i - 1] == s[i]);
            }
        }
    }
}

proof fn lemma_upto_is(s: Seq<char>, c: char, n: int)
    requires
        0 <= n <= s.len(),
        n < s.len() ==> s[n] == c,
        forall|i: int| 0 <= i < n ==> s[i] != c,
    ensures
        upto(s, c) == n,
{
    lemma_upto(s, c);
    if upto(s, c) < n {
        assert(s[upto(s, c)] == c);
    } else if upto(s, c) > n {
        assert(s[n] == c);
    }
}

proof fn lemma_word_len(s: Seq<char>)
    ensures
        0 <= word_len(s) <= s.len(),
        word_len(s) < s.len() ==> is_white(s[word_len(s)]),
        forall|i: int| 0 <= i < word_len(s) ==> !is_white(s[i]),
    decreases s.len(),
{
    if s.len() > 0 && !is_white(s[0]) {
        let rest = s.skip(1);
        lemma_word_len(rest);
        assert forall|i: int| 0 <= i < word_len(s) implies !is_white(s[i]) by {
            if i > 0 {
                assert(rest[i - 1] == s[i]);
            }
        }
    }
}

proof fn lemma_white_len(s: Seq<char>)
    ensures
        0 <= white_len(s) <= s.len(),
        white_len(s) < s.len() ==> !is_white(s[white_len(s)]),
        forall|i: int| 0 <= i < white_len(s) ==> is_white(s[i]),
    decreases s.len(),
{
    if s.len() > 0 && is_white(s[0]) {
        let rest = s.skip(1);
        lemma_white_len(rest);
        assert forall|i: int| 0 <= i < white_len(s) implies is_white(s[i]) by {
            if i > 0 {
                assert(rest[i - 1] == s[i]);
            }
        }
    }
}

/// Trimmed text neither starts nor ends with white space.
pub proof fn law_trimmed_has_no_white_edges(s: Seq<char>)
    ensures
        trimmed(s).len() > 0 ==> !is_white(trimmed(s)[0]) && !is_white(trimmed(s).last()),
{
    lemma_white_len(s);
    lemma_end_trimmed(s.skip(white_len(s)));
}

proof fn lemma_end_trimmed(s: Seq<char>)
    ensures
        end_trimmed(s).len() <= s.len(),
        end_trimmed(s) == s.take(end_trimmed(s).len() as int),
        end_trimmed(s).len() > 0 ==> !is_white(end_trimmed(s).last()),
    decreases s.len(),
{
    if s.len() > 0 && is_white(s.last()) {
        lemma_end_trimmed(s.drop_last());
        assert(s.drop_last().take(end_trimmed(s).len() as int) =~= s.take(
            end_trimmed(s).len() as int,
        ));
    } else {
        assert(s.take(s.len() as int) =~= s);
    }
}

proof fn lemma_end_trimmed_is(s: Seq<char>, n: int)
    requires
        0 <= n <= s.len(),
        n > 0 ==> !is_white(s[n - 1]),
        forall|i: int| n <= i < s.len() ==> is_white(s[i]),
    ensures
        end_trimmed(s) == s.take(n),
    decreases s.len(),
{
    if s.len() > n {
        lemma_end_trimmed_is(s.drop_last(), n);
        assert(s.drop_last().take(n) =~= s.take(n));
    } else {
        assert(s.take(n) =~= s);
    }
}

/// Number of characters before the first `c`.
pub fn len_upto(s: &[char], c: char) -> (n: usize)
    ensures
        n == upto(s@, c),
        n <= s@.len(),
{
    let mut i: usize = 0;
    while i < s.len() && s[i] != c
        invariant
            i <= s@.len(),
            forall|k: int| 0 <= k < i ==> s@[k] != c,
        decreases s@.len() - i,
    {
        i = i + 1;
    }
    proof {
        lemma_upto_is(s@, c, i as int);
    }
    i
}

fn len_of_white(s: &[char]) -> (n: usize)
    ensures
        n == white_len(s@),
        n <= s@.len(),
{
    let mut i: usize = 0;
    while i < s.len() && white(s[i])
        invariant
            i <= s@.len(),
            forall|k: int| 0 <= k < i ==> is_white(s@[k]),
        decreases s@.len() - i,
    {
        i = i + 1;
    }
    proof {
        lemma_white_len(s@);
        if white_len(s@) < i {
            assert(is_white(s@[white_len(s@)]));
        } else if white_len(s@) > i {
            assert(is_white(s@[i as int]));
        }
    }
    i
}

fn len_of_word(s: &[char]) -> (n: usize)
    ensures
        n == word_len(s@),
        n <= s@.len(),
{
    let mut i: usize = 0;
    while i < s.len() && !white(s[i])
        invariant
            i <= s@.len(),
            forall|k: int| 0 <= k < i ==> !is_white(s@[k]),
        decreases s@.len() - i,
    {
        i = i + 1;
    }
    proof {
        lemma_word_len(s@);
        if word_len(s@) < i {
            assert(!is_white(s@[word_len(s@)]));
        } else if word_len(s@) > i {
            assert(!is_white(s@[i as int]));
        }
    }
    i
}

/// The first `n` characters.
pub fn head(s: &[char], n: usize) -> (r: &[char])
    requires
        n <= s@.len(),
    ensures
        r@ == s@.take(n as int),
{
    let r = slice_subrange(s, 0, n);
    assert(r@ =~= s@.take(n as int));
    r
}

/// All but the first `n` characters.
pub fn tail(s: &[char], n: usize) -> (r: &[char])
    requires
        n <= s@.len(),
    ensures
        r@ == s@.skip(n as int),
{
    let r = slice_subrange(s, n, s.len());
    assert(r@ =~= s@.skip(n as int));
    r
}

/// The text without white space at either end.
pub fn trim(s: &[char]) -> (r: &[char])
    ensures
        r@ == trimmed(s@),
{
    let rest = tail(s, len_of_white(s));
    let mut n: usize = rest.len();
    while n > 0 && white(rest[n - 1])
        invariant
            n <= rest@.len(),
            forall|i: int| n <= i < rest@.len() ==> is_white(rest@[i]),
        decreases n,
    {
        n = n - 1;
    }
    proof {
        lemma_end_trimmed_is(rest@, n as int);
    }
    head(rest, n)
}

/// The first two words.
pub fn two_words(s: &[char]) -> (r: (Option<&[char]>, Option<&[char]>))
    ensures
        match r.0 {
            Some(w) => nth_word(s@, 0) == Some(w@),
            None => nth_word(s@, 0) is None,
        },
        match r.1 {
            Some(w) => nth_word(s@, 1) == Some(w@),
            None => nth_word(s@, 1) is None,
        },
{
    reveal_with_fuel(nth_word, 2);
    let a = tail(s, len_of_white(s));
    if a.len() == 0 {
        return (None, None);
    }
    let n: usize = len_of_word(a);
    let first = head(a, n);
    let b = tail(a, n);
    let c = tail(b, len_of_white(b));
    if c.len() == 0 {
        return (Some(first), None);
    }
    let second = head(c, len_of_word(c));
    (Some(first), Some(second))
}

/// Whether `part` stands at place `at`.
fn stands_at(s: &[char], at: usize, part: &[char]) -> (r: bool)
    requires
        at + part@.len() <= s@.len(),
    ensures
        r == (s@.subrange(at as int, at + part@.len()) == part@),
{
    let len: usize = s.len();
    let mut i: usize = 0;
    let ghost sub = s@.subrange(at as int, at + part@.len());
    while i < part.len()
        invariant
            i <= part@.len(),
            at + part@.len() <= len,
            len == s@.len(),
            sub == s@.subrange(at as int, at + part@.len()),
            forall|k: int| 0 <= k < i ==> sub[k] == part@[k],
        decreases part@.len() - i,
    {
        let same = s[at + i] == part[i];
        assert(sub[i as int] == s@[at + i]);
        if !same {
            return false;
        }
        i = i + 1;
    }
    assert(sub =~= part@);
    true
}

/// Number of characters before the first `part`.
pub fn find_part(s: &[char], part: &[char]) -> (r: Option<usize>)
    requires
        part@.len() > 0,
    ensures
        match r {
            Some(i) => find(s@, part@) == Some(i as int) && i + part@.len() <= s@.len(),
            None => find(s@, part@) is None,
        },
{
    let mut i: usize = 0;
    assert(s@.skip(0) =~= s@);
    while part.len() <= s.len() - i
        invariant
            i <= s@.len(),
            part@.len() > 0,
            find(s@, part@) == (match find(s@.skip(i as int), part@) {
                Some(j) => Some(i + j),
                None => None::<int>,
            }),
        decreases s@.len() - i,
    {
        let ghost rest = s@.skip(i as int);
        assert(rest.take(part@.len() as int) =~= s@.subrange(i as int, i + part@.len()));
        if stands_at(s, i, part) {
            return Some(i);
        }
        assert(rest.skip(1) =~= s@.skip(i + 1));
        i = i + 1;
    }
    None
}

/// What stands between the first and the second `part`, or behind the only one;
/// nothing if there is none.
pub fn between_parts<'a>(s: &'a [char], part: &[char]) -> (r: &'a [char])
    requires
        part@.len() > 0,
    ensures
        r@ == second_part(s@, part@),
{
    let len: usize = s.len();
    match find_part(s, part) {
        Some(i) => {
            assert(i + part@.len() <= len);
            let rest = tail(s, i + part.len());
            match find_part(rest, part) {
                Some(j) => head(rest, j),
                None => rest,
            }
        },
        None => {
            let r = head(s, 0);
            assert(r@ =~= seq![]);
            r
        },
    }
}

/// Whether two texts are the same.
pub fn same_text(a: &[char], b: &str) -> (r: bool)
    ensures
        r == (a@ == b@),
{
    let b = crate::text::chars_of(b);
    if a.len() != b.len() {
        return false;
    }
    stands_at_start(a, b.as_slice())
}

fn stands_at_start(a: &[char], b: &[char]) -> (r: bool)
    requires
        a@.len() == b@.len(),
    ensures
        r == (a@ == b@),
{
    assert(a@.subrange(0, b@.len() as int) =~= a@);
    stands_at(a, 0, b)
}

/// What is found is there, and nowhere before; what is not found is nowhere.
pub proof fn law_find_finds_the_first(s: Seq<char>, part: Seq<char>, k: int)
    requires
        part.len() > 0,
    ensures
        find(s, part) matches Some(i) ==> 0 <= i && i + part.len() <= s.len() && s.subrange(
            i,
            i + part.len(),
        ) == part,
        find(s, part) matches Some(i) ==> (0 <= k < i ==> s.subrange(k, k + part.len()) != part),
        find(s, part) is None && 0 <= k && k + part.len() <= s.len() ==> s.subrange(
            k,
            k + part.len(),
        ) != part,
    decreases s.len(),
{
    let n = part.len() as int;
    if s.len() >= n {
        assert(s.take(n) =~= s.subrange(0, n));
        if s.take(n) != part {
            let rest = s.skip(1);
            law_find_finds_the_first(rest, part, k - 1);
            if k > 0 && k + n <= s.len() {
                assert(rest.subrange(k - 1, k - 1 + n) =~= s.subrange(k, k + n));
            }
            if find(rest, part) is Some {
                let i = find(rest, part)->0;
                assert(rest.subrange(i, i + n) =~= s.subrange(i + 1, i + 1 + n));
            }
        }
    }
}

/// A split gives the text back, and its first part lacks the character.
pub proof fn law_split_gives_the_text_back(s: Seq<char>, c: char)
    ensures
        split_once(s, c) matches Some((a, b)) ==> s == a.push(c) + b && !a.contains(c),
        split_once(s, c) is None ==> !s.contains(c),
{
    lemma_upto(s, c);
    let n = upto(s, c);
    if n < s.len() {
        assert(s =~= s.take(n).push(c) + s.skip(n + 1));
        if s.take(n).contains(c) {
            let i = choose|i: int| 0 <= i < s.take(n).len() && s.take(n)[i] == c;
            assert(s[i] == c);
        }
    }
}

/// Words have no white space in them; between white space and the first word there
/// is nothing.
pub proof fn law_words_have_no_white_space(a: Seq<char>, word: Seq<char>, b: Seq<char>)
    requires
        forall|i: int| 0 <= i < a.len() ==> is_white(#[trigger] a[i]),
        forall|i: int| 0 <= i < word.len() ==> !is_white(#[trigger] word[i]),
        word.len() > 0,
        b.len() > 0 ==> is_white(b[0]),
    ensures
        nth_word(a + word + b, 0) == Some(word),
        nth_word(a + word + b, 1) == nth_word(b, 0),
{
    reveal_with_fuel(nth_word, 2);
    let s = a + word + b;
    lemma_white_len(s);
    let n = white_len(s);
    assert(s[a.len() as int] == word[0]);
    if n < a.len() {
        assert(s[n] == a[n]);
    }
    assert(n == a.len()) by {
        if n > a.len() {
            assert(is_white(s[a.len() as int]));
        }
    }
    let rest = s.skip(n);
    assert(rest =~= word + b);
    lemma_word_len(rest);
    let m = word_len(rest);
    if m < word.len() {
        assert(rest[m] == word[m]);
    }
    if m > word.len() {
        assert(rest[word.len() as int] == b[0]);
    }
    assert(m == word.len());
    assert(rest.take(m) =~= word);
    assert(rest.skip(m) =~= b);
}

/// Trimming takes white space off both ends, and nothing else.
pub proof fn law_trim_takes_white_space_off(a: Seq<char>, text: Seq<char>, b: Seq<char>)
    requires
        forall|i: int| 0 <= i < a.len() ==> is_white(#[trigger] a[i]),
        forall|i: int| 0 <= i < b.len() ==> is_white(#[trigger] b[i]),
        text.len() > 0,
        !is_white(text[0]),
        !is_white(text.last()),
    ensures
        trimmed(a + text + b) == text,
{
    let s = a + text + b;
    lemma_white_len(s);
    let n = white_len(s);
    assert(s[a.len() as int] == text[0]);
    if n < a.len() {
        assert(s[n] == a[n]);
    }
    assert(n == a.len()) by {
        if n > a.len() {
            assert(is_white(s[a.len() as int]));
        }
    }
    let rest = s.skip(n);
    assert(rest =~= text + b);
    assert forall|i: int| text.len() <= i < rest.len() implies is_white(rest[i]) by {
        assert(rest[i] == b[i - text.len()]);
    }
    assert(rest[text.len() - 1] == text.last());
    lemma_end_trimmed_is(rest, text.len() as int);
    assert(rest.take(text.len() as int) =~= text);
}

} // verus!
