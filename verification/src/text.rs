use vstd::prelude::*;
use vstd::string::StrSliceExecFns;

verus! {

/// Whether `c` has the Unicode property `White_Space`: the code points that
/// the Unicode Character Database lists with it. They are the controls from
/// tab to carriage return, the blank, the control "next line", the no-break
/// space, the Ogham space mark, the spaces from en quad to hair space, the
/// line and the paragraph separator, the narrow no-break space, the medium
/// mathematical space and the ideographic space.
pub open spec fn is_white_space(c: char) -> bool {
    let n = c as u32;
    ||| 0x9 <= n <= 0xd
    ||| n == 0x20
    ||| n == 0x85
    ||| n == 0xa0
    ||| n == 0x1680
    ||| 0x2000 <= n <= 0x200a
    ||| n == 0x2028
    ||| n == 0x2029
    ||| n == 0x202f
    ||| n == 0x205f
    ||| n == 0x3000
}

/// `char::is_whitespace` of the standard library, which tells whether a
/// character has the Unicode property `White_Space`. Believed, not proved: the
/// answer is that of [`is_white_space`].
#[verifier::external_body]
fn has_white_space_property(c: char) -> (b: bool)
    ensures
        b == is_white_space(c),
{
    c.is_whitespace()
}

/// `String::push` of the standard library. Believed, not proved: the string
/// afterwards is the string before with `c` as one more character at its end.
#[verifier::external_body]
fn push_char(s: &mut String, c: char)
    ensures
        final(s)@ == old(s)@.push(c),
{
    s.push(c)
}

/// Whether `c` separates words. White space does, except the no-break space,
/// which joins what stands on either side of it.
pub open spec fn is_break(c: char) -> bool {
    is_white_space(c) && c != '\u{a0}'
}

/// For each character of `s`, whether it separates words.
pub open spec fn breaks_of(s: Seq<char>) -> Seq<bool> {
    Seq::new(s.len(), |i: int| is_break(s[i]))
}

/// `n` blanks.
pub open spec fn spaces(n: nat) -> Seq<char> {
    Seq::new(n, |i: int| ' ')
}

/// The words met while reading `s` from the left, where `breaks` says of each
/// place whether a separator stands there: the words already closed by a
/// separator, and the one still open at the end of `s`.
pub open spec fn scan_words(s: Seq<char>, breaks: Seq<bool>) -> (Seq<Seq<char>>, Seq<char>)
    decreases s.len(),
{
    if s.len() == 0 {
        (Seq::empty(), Seq::empty())
    } else {
        let (done, open) = scan_words(s.drop_last(), breaks);
        if breaks[s.len() - 1] {
            if open.len() > 0 {
                (done.push(open), Seq::empty())
            } else {
                (done, open)
            }
        } else {
            (done, open.push(s.last()))
        }
    }
}

/// The maximal runs of characters of `s` between the separators that `breaks`
/// marks, from left to right.
pub open spec fn words_between(s: Seq<char>, breaks: Seq<bool>) -> Seq<Seq<char>> {
    let (done, open) = scan_words(s, breaks);
    if open.len() > 0 {
        done.push(open)
    } else {
        done
    }
}

/// The words of `s`: its maximal runs of characters that are not separators,
/// from left to right.
pub open spec fn words_of(s: Seq<char>) -> Seq<Seq<char>> {
    words_between(s, breaks_of(s))
}

/// The number of characters in all of `words`.
pub open spec fn letters(words: Seq<Seq<char>>) -> nat
    decreases words.len(),
{
    if words.len() == 0 {
        0
    } else {
        letters(words.drop_last()) + words.last().len()
    }
}

/// The width of `words` written on one line with one blank between neighbours.
pub open spec fn joined_width(words: Seq<Seq<char>>) -> nat {
    if words.len() == 0 {
        0
    } else {
        (letters(words) + words.len() - 1) as nat
    }
}

/// The length of the longest of `words`.
pub open spec fn longest(words: Seq<Seq<char>>) -> nat
    decreases words.len(),
{
    if words.len() == 0 {
        0
    } else {
        let rest = longest(words.drop_last());
        if words.last().len() > rest {
            words.last().len()
        } else {
            rest
        }
    }
}

/// The characters required to show `s` once leading and trailing white space
/// is gone and every inner run of it has become one blank.
pub open spec fn normalized_width(s: Seq<char>) -> nat {
    joined_width(words_of(s))
}

/// The length of the longest word of `s`.
pub open spec fn longest_word_width(s: Seq<char>) -> nat {
    longest(words_of(s))
}

/// Every word is a run without separators, and none is empty.
pub open spec fn proper_words(words: Seq<Seq<char>>) -> bool {
    forall|i: int|
        0 <= i < words.len() ==> {
            &&& (#[trigger] words[i]).len() > 0
            &&& forall|j: int| 0 <= j < words[i].len() ==> !is_break(#[trigger] words[i][j])
        }
}

/// The texts of a list of strings.
pub open spec fn texts(row: Seq<String>) -> Seq<Seq<char>> {
    Seq::new(row.len(), |c: int| row[c]@)
}

/// The words that a list of lists of characters stands for.
pub open spec fn words_view(words: Seq<Vec<char>>) -> Seq<Seq<char>> {
    Seq::new(words.len(), |i: int| words[i]@)
}

/// Reading a text yields no empty word, and the words take no more room than
/// the text.
pub proof fn lemma_scan_words(s: Seq<char>, breaks: Seq<bool>)
    ensures
        forall|i: int|
            0 <= i < scan_words(s, breaks).0.len() ==> (#[trigger] scan_words(s, breaks).0[i]).len()
                > 0,
        letters(scan_words(s, breaks).0) + scan_words(s, breaks).0.len() + scan_words(
            s,
            breaks,
        ).1.len() <= s.len(),
    decreases s.len(),
{
    if s.len() > 0 {
        lemma_scan_words(s.drop_last(), breaks);
        let (done, open) = scan_words(s.drop_last(), breaks);
        if breaks[s.len() - 1] && open.len() > 0 {
            assert(done.push(open).drop_last() =~= done);
        }
    }
}

/// Reading the first `n` characters of a text yields words without
/// separators.
pub proof fn lemma_scan_proper(s: Seq<char>, n: int)
    requires
        0 <= n <= s.len(),
    ensures
        proper_words(scan_words(s.take(n), breaks_of(s)).0),
        forall|j: int|
            0 <= j < scan_words(s.take(n), breaks_of(s)).1.len() ==> !is_break(
                #[trigger] scan_words(s.take(n), breaks_of(s)).1[j],
            ),
    decreases n,
{
    if n > 0 {
        lemma_scan_proper(s, n - 1);
        lemma_scan_words(s.take(n - 1), breaks_of(s));
        assert(s.take(n).drop_last() =~= s.take(n - 1));
    }
}

/// No word is longer than all words together.
pub proof fn lemma_longest_le_letters(words: Seq<Seq<char>>)
    ensures
        longest(words) <= letters(words),
        words.len() == 0 ==> longest(words) == 0,
    decreases words.len(),
{
    if words.len() > 0 {
        lemma_longest_le_letters(words.drop_last());
    }
}

/// The words of a text are proper, and written out with single blanks they are
/// no longer than the text; nor is any word longer than that.
pub proof fn lemma_words_of(s: Seq<char>)
    ensures
        proper_words(words_of(s)),
        normalized_width(s) <= s.len(),
        longest_word_width(s) <= normalized_width(s),
{
    lemma_scan_words(s, breaks_of(s));
    lemma_scan_proper(s, s.len() as int);
    assert(s.take(s.len() as int) =~= s);
    let (done, open) = scan_words(s, breaks_of(s));
    if open.len() > 0 {
        assert(done.push(open).drop_last() =~= done);
    }
    lemma_longest_le_letters(words_of(s));
}

/// A text of separators alone has no words.
pub proof fn lemma_blank_text_has_no_words(s: Seq<char>, breaks: Seq<bool>)
    requires
        forall|i: int| 0 <= i < s.len() ==> breaks[i],
    ensures
        scan_words(s, breaks) == (Seq::<Seq<char>>::empty(), Seq::<char>::empty()),
        words_between(s, breaks) == Seq::<Seq<char>>::empty(),
    decreases s.len(),
{
    if s.len() > 0 {
        lemma_blank_text_has_no_words(s.drop_last(), breaks);
    }
}

/// A leading part of a list of words is no wider than the list.
pub proof fn lemma_joined_width_grows(words: Seq<Seq<char>>, k: int)
    requires
        0 <= k <= words.len(),
    ensures
        joined_width(words.subrange(0, k)) <= joined_width(words),
        letters(words.subrange(0, k)) <= letters(words),
    decreases words.len() - k,
{
    if k < words.len() {
        lemma_joined_width_grows(words, k + 1);
        assert(words.subrange(0, k + 1).drop_last() =~= words.subrange(0, k));
    } else {
        assert(words.subrange(0, k) =~= words);
    }
}

/// Two runs of blanks make one run.
pub proof fn lemma_spaces_add(a: nat, b: nat)
    ensures
        spaces(a) + spaces(b) == spaces(a + b),
{
    assert(spaces(a) + spaces(b) =~= spaces(a + b));
}

/// Whether `c` separates words.
pub fn is_break_char(c: char) -> (b: bool)
    ensures
        b == is_break(c),
{
    c != '\u{a0}' && has_white_space_property(c)
}

/// The characters of `s`, one by one.
pub fn chars_of(s: &str) -> (v: Vec<char>)
    ensures
        v@ == s@,
{
    broadcast use vstd::string::group_string_axioms;

    let mut v: Vec<char> = Vec::new();
    for c in iter: s.chars()
        invariant
            iter.seq() == s@,
            v@ == s@.subrange(0, iter.index() as int),
    {
        v.push(c);
    }
    assert(v@ =~= s@);
    v
}

/// Adds `n` blanks at the end of `s`, where `n` may be more than a machine
/// word holds.
pub fn append_many_blanks(s: &mut String, n: u128)
    ensures
        final(s)@ == old(s)@ + spaces(n as nat),
{
    let mut i: u128 = 0;
    assert(s@ =~= old(s)@ + spaces(0));
    while i < n
        invariant
            i <= n,
            s@ == old(s)@ + spaces(i as nat),
        decreases n - i,
    {
        push_char(s, ' ');
        assert((old(s)@ + spaces(i as nat)).push(' ') =~= old(s)@ + spaces((i + 1) as nat));
        i += 1;
    }
}

/// Adds `n` blanks at the end of `s`.
pub fn append_blanks(s: &mut String, n: usize)
    ensures
        final(s)@ == old(s)@ + spaces(n as nat),
{
    append_many_blanks(s, n as u128);
}

/// Adds the characters of `v` at the end of `s`.
pub fn append_chars(s: &mut String, v: &Vec<char>)
    ensures
        final(s)@ == old(s)@ + v@,
{
    let mut i: usize = 0;
    assert(s@ =~= old(s)@ + v@.subrange(0, 0));
    while i < v.len()
        invariant
            i <= v.len(),
            s@ == old(s)@ + v@.subrange(0, i as int),
        decreases v.len() - i,
    {
        push_char(s, v[i]);
        assert((old(s)@ + v@.subrange(0, i as int)).push(v@[i as int]) =~= old(s)@ + v@.subrange(
            0,
            i + 1,
        ));
        i += 1;
    }
    assert(v@.subrange(0, i as int) =~= v@);
}

/// A string of `n` blanks.
pub fn blanks(n: usize) -> (s: String)
    ensures
        s@ == spaces(n as nat),
{
    let mut s = String::new();
    append_blanks(&mut s, n);
    assert(Seq::<char>::empty() + spaces(n as nat) =~= spaces(n as nat));
    s
}

/// `n` blanks, one by one.
pub fn blank_chars(n: usize) -> (v: Vec<char>)
    ensures
        v@ == spaces(n as nat),
{
    let mut v: Vec<char> = Vec::new();
    let mut i: usize = 0;
    assert(v@ =~= spaces(0));
    while i < n
        invariant
            i <= n,
            v@ == spaces(i as nat),
        decreases n - i,
    {
        v.push(' ');
        assert(spaces(i as nat).push(' ') =~= spaces((i + 1) as nat));
        i += 1;
    }
    v
}

/// For each of the characters, whether it separates words.
pub fn classify(chars: &Vec<char>) -> (breaks: Vec<bool>)
    ensures
        breaks@ == breaks_of(chars@),
{
    let mut breaks: Vec<bool> = Vec::new();
    let mut i: usize = 0;
    while i < chars.len()
        invariant
            i <= chars.len(),
            breaks@ == breaks_of(chars@).take(i as int),
        decreases chars.len() - i,
    {
        breaks.push(is_break_char(chars[i]));
        assert(breaks@ =~= breaks_of(chars@).take(i + 1));
        i += 1;
    }
    assert(breaks_of(chars@).take(i as int) =~= breaks_of(chars@));
    breaks
}

/// Splits the characters into words at the places that `breaks` marks as
/// separators.
pub fn split_at_breaks(chars: &Vec<char>, breaks: &Vec<bool>) -> (words: Vec<Vec<char>>)
    requires
        breaks@.len() == chars@.len(),
    ensures
        words_view(words@) == words_between(chars@, breaks@),
{
    let mut done: Vec<Vec<char>> = Vec::new();
    let mut open: Vec<char> = Vec::new();
    let mut i: usize = 0;
    while i < chars.len()
        invariant
            i <= chars.len(),
            breaks@.len() == chars@.len(),
            (words_view(done@), open@) == scan_words(chars@.take(i as int), breaks@),
        decreases chars.len() - i,
    {
        assert(chars@.take(i + 1).drop_last() =~= chars@.take(i as int));
        let ghost before = words_view(done@);
        if breaks[i] {
            if open.len() > 0 {
                let ghost closed = open@;
                done.push(open);
                open = Vec::new();
                assert(words_view(done@) =~= before.push(closed));
            }
        } else {
            open.push(chars[i]);
        }
        i += 1;
    }
    assert(chars@.take(i as int) =~= chars@);
    if open.len() > 0 {
        let ghost before = words_view(done@);
        let ghost closed = open@;
        done.push(open);
        assert(words_view(done@) =~= before.push(closed));
    }
    done
}

/// Splits `s` into its words.
pub fn split_words(s: &str) -> (words: Vec<Vec<char>>)
    ensures
        words_view(words@) == words_of(s@),
{
    let chars = chars_of(s);
    let breaks = classify(&chars);
    split_at_breaks(&chars, &breaks)
}

/// The length of the longest of the words.
pub fn longest_of(words: &Vec<Vec<char>>) -> (n: usize)
    ensures
        n == longest(words_view(words@)),
{
    let mut n: usize = 0;
    let mut i: usize = 0;
    while i < words.len()
        invariant
            i <= words.len(),
            n == longest(words_view(words@).subrange(0, i as int)),
        decreases words.len() - i,
    {
        proof {
            let next = words_view(words@).subrange(0, i + 1);
            assert(next.drop_last() =~= words_view(words@).subrange(0, i as int));
        }
        if words[i].len() > n {
            n = words[i].len();
        }
        i += 1;
    }
    assert(words_view(words@).subrange(0, i as int) =~= words_view(words@));
    n
}

/// The width of the words on one line with one blank between neighbours,
/// where that is a number of machine size.
pub fn joined_width_of(words: &Vec<Vec<char>>) -> (n: usize)
    requires
        joined_width(words_view(words@)) <= usize::MAX,
    ensures
        n == joined_width(words_view(words@)),
{
    let ghost all = words_view(words@);
    let mut n: usize = 0;
    let mut i: usize = 0;
    while i < words.len()
        invariant
            i <= words.len(),
            all == words_view(words@),
            joined_width(all) <= usize::MAX,
            n == joined_width(all.subrange(0, i as int)),
        decreases words.len() - i,
    {
        proof {
            let next = all.subrange(0, i + 1);
            assert(next.drop_last() =~= all.subrange(0, i as int));
            lemma_joined_width_grows(all, i + 1);
        }
        if i > 0 {
            n += 1;
        }
        n += words[i].len();
        i += 1;
    }
    assert(all.subrange(0, i as int) =~= all);
    n
}

/// The length of the longest run of characters of `s` that holds no separator.
pub fn longest_word(s: &str) -> (n: usize)
    ensures
        n == longest_word_width(s@),
{
    let words = split_words(s);
    longest_of(&words)
}

/// The characters required to represent `s` after whitespace normalization.
pub fn width_after_normalization(s: &str) -> (n: usize)
    ensures
        n == normalized_width(s@),
{
    let size: usize = s.unicode_len();
    let words = split_words(s);
    proof {
        lemma_words_of(s@);
        assert(normalized_width(s@) <= size);
    }
    joined_width_of(&words)
}

} // verus!
