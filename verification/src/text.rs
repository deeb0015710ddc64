//! Building and taking apart text.

use vstd::prelude::*;
use vstd::string::*;

verus! {

/// `String::push`: the character goes to the end of the text.
pub assume_specification[ String::push ](text: &mut String, c: char)
    ensures
        final(text)@ == old(text)@.push(c),
;

// ---------------------------------------------------------------------------
// Numerals
// ---------------------------------------------------------------------------

/// The character of a decimal digit.
pub open spec fn digit_char(d: int) -> char {
    (48 + d) as char
}

/// The decimal numeral of a natural number, without leading zeros.
pub open spec fn dec(n: nat) -> Seq<char>
    decreases n,
{
    if n < 10 {
        seq![digit_char(n as int)]
    } else {
        dec(n / 10).push(digit_char((n % 10) as int))
    }
}

/// The decimal numeral of an integer, with a minus sign where it is negative.
pub open spec fn int_dec(i: int) -> Seq<char> {
    if i < 0 {
        seq!['-'] + dec((-i) as nat)
    } else {
        dec(i as nat)
    }
}

/// The character of the digit `d`.
fn digit(d: u128) -> (c: char)
    requires
        d < 10,
    ensures
        c == digit_char(d as int),
{
    (48u8 + d as u8) as char
}

/// Appends the decimal numeral of `n`.
pub fn push_wide_dec(out: &mut String, n: u128)
    ensures
        final(out)@ == old(out)@ + dec(n as nat),
    decreases n,
{
    if n >= 10 {
        push_wide_dec(out, n / 10);
    }
    out.push(digit(n % 10));
    assert(out@ =~= old(out)@ + dec(n as nat));
}

/// Appends the decimal numeral of `n`.
pub fn push_dec(out: &mut String, n: u64)
    ensures
        final(out)@ == old(out)@ + dec(n as nat),
{
    push_wide_dec(out, n as u128)
}

/// The decimal numeral of `n`.
pub fn dec_text(n: u64) -> (res: String)
    ensures
        res@ == dec(n as nat),
{
    let mut out = String::new();
    push_dec(&mut out, n);
    assert(out@ =~= dec(n as nat));
    out
}

/// Appends the decimal numeral of `i`.
pub fn push_int(out: &mut String, i: i128)
    requires
        i > i128::MIN,
    ensures
        final(out)@ == old(out)@ + int_dec(i as int),
{
    if i < 0 {
        out.push('-');
        push_wide_dec(out, (-i) as u128);
        assert(out@ =~= old(out)@ + int_dec(i as int));
    } else {
        push_wide_dec(out, i as u128);
    }
}

/// The decimal numeral of `i`.
pub fn int_text(i: i64) -> (res: String)
    ensures
        res@ == int_dec(i as int),
{
    let mut out = String::new();
    push_int(&mut out, i as i128);
    assert(out@ =~= int_dec(i as int));
    out
}

// ---------------------------------------------------------------------------
// Characters, comparison, pieces
// ---------------------------------------------------------------------------

/// The characters of `s`.
pub fn chars_of(s: &str) -> (res: Vec<char>)
    ensures
        res@ == s@,
{
    let mut res: Vec<char> = Vec::new();
    for c in it: s.chars()
        invariant
            res@ == it.seq().take(it.index()),
            it.seq() == s@,
    {
        res.push(c);
    }
    assert(res@ =~= s@);
    res
}

/// The text made of `chars[from..to]`.
pub fn slice_text(chars: &[char], from: usize, to: usize) -> (res: String)
    requires
        from <= to <= chars@.len(),
    ensures
        res@ == chars@.subrange(from as int, to as int),
{
    let mut out = String::new();
    for i in from..to
        invariant
            from <= to <= chars@.len(),
            out@ == chars@.subrange(from as int, i as int),
    {
        out.push(chars[i]);
        assert(out@ =~= chars@.subrange(from as int, i + 1));
    }
    out
}

/// Whether two texts hold the same characters.
pub fn same_text(a: &str, b: &str) -> (res: bool)
    ensures
        res == (a@ == b@),
{
    a.to_owned() == b.to_owned()
}

/// The texts of a list of strings.
pub open spec fn texts(list: Seq<String>) -> Seq<Seq<char>> {
    list.map_values(|s: String| s@)
}

/// `pat` stands in `s` at position `i`.
pub open spec fn stands_at(s: Seq<char>, pat: Seq<char>, i: int) -> bool {
    &&& 0 <= i
    &&& i + pat.len() <= s.len()
    &&& s.subrange(i, i + pat.len()) == pat
}

/// `pat` occurs somewhere in `s`.
pub open spec fn occurs(s: Seq<char>, pat: Seq<char>) -> bool {
    exists|i: int| stands_at(s, pat, i)
}

/// `s` ends in `pat`.
pub open spec fn ends_in(s: Seq<char>, pat: Seq<char>) -> bool {
    stands_at(s, pat, s.len() - pat.len())
}

/// `s` begins with `pat`.
pub open spec fn begins_with(s: Seq<char>, pat: Seq<char>) -> bool {
    stands_at(s, pat, 0)
}

/// `text` is `value` between `head` and `tail`.
pub open spec fn is_filled(
    text: Seq<char>,
    head: Seq<char>,
    value: Seq<char>,
    tail: Seq<char>,
) -> bool {
    text == head + value + tail
}

/// `a` and `b` are one text but that `a` has `x` where `b` has `y`, right behind `before` and
/// right before `after`.
pub open spec fn same_but(
    a: Seq<char>,
    x: Seq<char>,
    b: Seq<char>,
    y: Seq<char>,
    before: Seq<char>,
    after: Seq<char>,
) -> bool {
    exists|head: Seq<char>, tail: Seq<char>| #[trigger]
        is_filled(a, head, x, tail) && is_filled(b, head, y, tail) && ends_in(head, before)
            && begins_with(tail, after)
}

/// A text made of two pieces begins with the one and ends in the other.
pub proof fn lemma_pieces(a: Seq<char>, b: Seq<char>)
    ensures
        begins_with(a + b, a),
        ends_in(a + b, b),
{
    assert((a + b).subrange(0, a.len() as int) =~= a);
    assert((a + b).subrange(a.len() as int, (a + b).len() as int) =~= b);
}

/// A piece in the middle of a text occurs in it.
pub proof fn lemma_middle(a: Seq<char>, b: Seq<char>, c: Seq<char>)
    ensures
        occurs(a + b + c, b),
{
    assert((a + b + c).subrange(a.len() as int, (a.len() + b.len()) as int) =~= b);
    assert(stands_at(a + b + c, b, a.len() as int));
}

/// A text stands in another where every one of its characters does, at the same distance; it
/// occurs there where the other is made of it and of something before and behind, and the other
/// ends in it where nothing is behind.
pub proof fn law_occurrence(s: Seq<char>, pat: Seq<char>, i: int)
    ensures
        stands_at(s, pat, i) <==> 0 <= i && i + pat.len() <= s.len() && forall|j: int|
            0 <= j < pat.len() ==> s[i + j] == #[trigger] pat[j],
        occurs(s, pat) <==> exists|a: Seq<char>, b: Seq<char>| s == #[trigger] (a + pat + b),
        ends_in(s, pat) <==> exists|a: Seq<char>| s == #[trigger] (a + pat),
        begins_with(s, pat) <==> exists|b: Seq<char>| s == #[trigger] (pat + b),
{
    if stands_at(s, pat, i) {
        assert forall|j: int| 0 <= j < pat.len() implies s[i + j] == #[trigger] pat[j] by {
            assert(s.subrange(i, i + pat.len())[j] == pat[j]);
        }
    }
    if 0 <= i && i + pat.len() <= s.len() && forall|j: int|
        0 <= j < pat.len() ==> s[i + j] == #[trigger] pat[j] {
        assert(s.subrange(i, i + pat.len()) =~= pat);
    }
    if occurs(s, pat) {
        let at = choose|at: int| stands_at(s, pat, at);
        assert(s =~= s.take(at) + pat + s.skip(at + pat.len()));
    }
    assert forall|a: Seq<char>, b: Seq<char>| s == #[trigger] (a + pat + b) implies occurs(
        s,
        pat,
    ) by {
        lemma_middle(a, pat, b);
    }
    if ends_in(s, pat) {
        assert(s =~= s.take(s.len() - pat.len()) + pat);
    }
    assert forall|a: Seq<char>| s == #[trigger] (a + pat) implies ends_in(s, pat) by {
        lemma_pieces(a, pat);
    }
    if begins_with(s, pat) {
        assert(s =~= pat + s.skip(pat.len() as int));
    }
    assert forall|b: Seq<char>| s == #[trigger] (pat + b) implies begins_with(s, pat) by {
        lemma_pieces(pat, b);
    }
}

/// Two texts with one frame round different values.
pub proof fn lemma_same_but(
    head: Seq<char>,
    x: Seq<char>,
    y: Seq<char>,
    tail: Seq<char>,
    before: Seq<char>,
    after: Seq<char>,
)
    requires
        ends_in(head, before),
        begins_with(tail, after),
    ensures
        same_but(head + x + tail, x, head + y + tail, y, before, after),
        head + x + tail == head + y + tail ==> x == y,
{
    assert(is_filled(head + x + tail, head, x, tail));
    assert(is_filled(head + y + tail, head, y, tail));
    if head + x + tail == head + y + tail {
        assert(x.len() == y.len()) by {
            assert((head + x + tail).len() == head.len() + x.len() + tail.len());
            assert((head + y + tail).len() == head.len() + y.len() + tail.len());
        }
        assert forall|i: int| 0 <= i < x.len() implies x[i] == y[i] by {
            assert((head + x + tail)[head.len() + i] == x[i]);
            assert((head + y + tail)[head.len() + i] == y[i]);
        }
        assert(x =~= y);
    }
}

/// Whether `pat` stands in `s` at position `i`.
fn pattern_at(s: &[char], pat: &[char], i: usize) -> (res: bool)
    requires
        i <= s@.len(),
    ensures
        res == stands_at(s@, pat@, i as int),
{
    if pat.len() > s.len() - i {
        return false;
    }
    for j in 0..pat.len()
        invariant
            i + pat@.len() <= s@.len() <= usize::MAX,
            forall|k: int| 0 <= k < j ==> s@[i + k] == pat@[k],
    {
        if s[i + j] != pat[j] {
            proof {
                assert(s@.subrange(i as int, i + pat@.len())[j as int] != pat@[j as int]);
            }
            return false;
        }
    }
    assert(s@.subrange(i as int, i + pat@.len()) =~= pat@);
    true
}

/// Whether `pat` occurs in `s`.
pub fn contains_text(s: &str, pat: &str) -> (res: bool)
    ensures
        res == occurs(s@, pat@),
{
    let text = chars_of(s);
    let pattern = chars_of(pat);
    let mut i: usize = 0;
    while i < text.len()
        invariant
            i <= text@.len(),
            text@ == s@,
            pattern@ == pat@,
            forall|k: int| 0 <= k < i ==> !stands_at(s@, pat@, k),
        decreases text@.len() - i,
    {
        if pattern_at(&text, &pattern, i) {
            return true;
        }
        i += 1;
    }
    pattern_at(&text, &pattern, i)
}

/// Whether `s` ends in `pat`.
pub fn ends_with_text(s: &str, pat: &str) -> (res: bool)
    ensures
        res == ends_in(s@, pat@),
{
    let text = chars_of(s);
    let pattern = chars_of(pat);
    if pattern.len() > text.len() {
        return false;
    }
    pattern_at(&text, &pattern, text.len() - pattern.len())
}

/// The position of the first `c` in `s` at or after `from`, or the length of `s`.
pub open spec fn first_at(s: Seq<char>, c: char, from: int) -> int
    decreases s.len() - from,
{
    if from >= s.len() || s[from] == c {
        from
    } else {
        first_at(s, c, from + 1)
    }
}

/// The position of the first `c` in `s`, or the length of `s`.
pub fn find_char(s: &[char], c: char) -> (res: usize)
    ensures
        res == first_at(s@, c, 0),
        res <= s@.len(),
        res < s@.len() ==> s@[res as int] == c,
        forall|k: int| 0 <= k < res ==> s@[k] != c,
{
    let mut i: usize = 0;
    while i < s.len() && s[i] != c
        invariant
            i <= s@.len(),
            first_at(s@, c, 0) == first_at(s@, c, i as int),
            forall|k: int| 0 <= k < i ==> s@[k] != c,
        decreases s@.len() - i,
    {
        i += 1;
    }
    i
}

// ---------------------------------------------------------------------------
// Padding, repetition, lists
// ---------------------------------------------------------------------------

/// `n` copies of `c`.
pub open spec fn repeated(c: char, n: nat) -> Seq<char> {
    Seq::new(n, |i: int| c)
}

/// `s` aligned to the right in a field of `width` characters.
pub open spec fn pad_left(s: Seq<char>, width: nat) -> Seq<char> {
    if s.len() < width {
        repeated(' ', (width - s.len()) as nat) + s
    } else {
        s
    }
}

/// `s` aligned to the left in a field of `width` characters.
pub open spec fn pad_right(s: Seq<char>, width: nat) -> Seq<char> {
    if s.len() < width {
        s + repeated(' ', (width - s.len()) as nat)
    } else {
        s
    }
}

/// Appends `n` copies of `c`.
pub fn push_repeated(out: &mut String, c: char, n: usize)
    ensures
        final(out)@ == old(out)@ + repeated(c, n as nat),
{
    let ghost start = out@;
    assert(start =~= start + repeated(c, 0));
    for i in 0..n
        invariant
            out@ == start + repeated(c, i as nat),
    {
        out.push(c);
        assert(out@ =~= start + repeated(c, (i + 1) as nat));
    }
}

/// Appends `s`, aligned to the right in a field of `width` characters.
pub fn push_left_padded(out: &mut String, s: &str, width: usize)
    ensures
        final(out)@ == old(out)@ + pad_left(s@, width as nat),
{
    let len = s.unicode_len();
    if len < width {
        push_repeated(out, ' ', width - len);
        out.append(s);
        assert(out@ =~= old(out)@ + pad_left(s@, width as nat));
    } else {
        out.append(s);
    }
}

/// Appends `s`, aligned to the left in a field of `width` characters.
pub fn push_right_padded(out: &mut String, s: &str, width: usize)
    ensures
        final(out)@ == old(out)@ + pad_right(s@, width as nat),
{
    let len = s.unicode_len();
    if len < width {
        out.append(s);
        push_repeated(out, ' ', width - len);
        assert(out@ =~= old(out)@ + pad_right(s@, width as nat));
    } else {
        out.append(s);
    }
}

/// The texts of `parts` with `sep` between each two of them.
pub open spec fn joined(parts: Seq<Seq<char>>, sep: Seq<char>) -> Seq<char>
    decreases parts.len(),
{
    if parts.len() == 0 {
        Seq::empty()
    } else if parts.len() == 1 {
        parts[0]
    } else {
        joined(parts.drop_last(), sep) + sep + parts.last()
    }
}

/// The strings of `parts` with `sep` between each two of them.
pub fn join_texts(parts: &Vec<String>, sep: &str) -> (res: String)
    ensures
        res@ == joined(texts(parts@), sep@),
{
    let mut out = String::new();
    let ghost all = texts(parts@);
    assert(out@ =~= joined(all.take(0), sep@));
    for i in 0..parts.len()
        invariant
            all == texts(parts@),
            out@ == joined(all.take(i as int), sep@),
    {
        assert(all.take(i + 1).drop_last() =~= all.take(i as int));
        assert(all.take(i + 1).last() == parts@[i as int]@);
        if i > 0 {
            out.append(sep);
            out.append(parts[i].as_str());
        } else {
            out = parts[0].clone();
            assert(all.take(1)[0] == parts@[0]@);
        }
    }
    assert(all.take(parts@.len() as int) =~= all);
    out
}

/// The numerals of a list of numbers.
pub open spec fn decs(list: Seq<nat>) -> Seq<Seq<char>> {
    list.map_values(|n: nat| dec(n))
}

/// A list of numbers as `[1, 10, 50]`.
pub open spec fn number_list(list: Seq<nat>) -> Seq<char> {
    "["@ + joined(decs(list), ", "@) + "]"@
}

/// The numbers of a list.
pub open spec fn nats(list: Seq<u64>) -> Seq<nat> {
    list.map_values(|n: u64| n as nat)
}

/// The numbers of a list.
pub open spec fn usize_nats(list: Seq<usize>) -> Seq<nat> {
    list.map_values(|n: usize| n as nat)
}

/// A list of numbers as `[1, 10, 50]`.
pub fn number_list_text(list: &[u64]) -> (res: String)
    ensures
        res@ == number_list(nats(list@)),
{
    let mut parts: Vec<String> = Vec::new();
    assert(texts(parts@) =~= decs(nats(list@.take(0))));
    for i in 0..list.len()
        invariant
            texts(parts@) == decs(nats(list@.take(i as int))),
    {
        let ghost before = texts(parts@);
        parts.push(dec_text(list[i]));
        assert(texts(parts@) =~= before.push(dec(list@[i as int] as nat)));
        assert(decs(nats(list@.take(i + 1))) =~= before.push(dec(list@[i as int] as nat)));
    }
    assert(list@.take(list@.len() as int) =~= list@);
    let mut out = "[".to_owned();
    out.append(join_texts(&parts, ", ").as_str());
    out.append("]");
    out
}

/// A list of numbers as `[1, 10, 50]`.
pub fn usize_list_text(list: &[usize]) -> (res: String)
    ensures
        res@ == number_list(usize_nats(list@)),
{
    let mut wide: Vec<u64> = Vec::new();
    for i in 0..list.len()
        invariant
            wide@.len() == i,
            forall|k: int| 0 <= k < i ==> wide@[k] == list@[k],
    {
        wide.push(list[i] as u64);
    }
    assert(nats(wide@) =~= usize_nats(list@));
    number_list_text(&wide)
}

/// A padded text fills its field, or is the text where that is longer; it holds the text at the
/// one side and nothing but blanks at the other.
pub proof fn law_padding(s: Seq<char>, width: nat)
    ensures
        pad_left(s, width).len() == (if s.len() < width { width } else { s.len() }),
        pad_right(s, width).len() == pad_left(s, width).len(),
        ends_in(pad_left(s, width), s),
        begins_with(pad_right(s, width), s),
        forall|i: int|
            0 <= i < pad_left(s, width).len() - s.len() ==> #[trigger] pad_left(s, width)[i] == ' ',
        forall|i: int|
            s.len() <= i < pad_right(s, width).len() ==> #[trigger] pad_right(s, width)[i] == ' ',
{
    let blanks = repeated(' ', (width - s.len()) as nat);
    if s.len() < width {
        lemma_pieces(blanks, s);
        lemma_pieces(s, blanks);
    } else {
        assert(s.subrange(0, s.len() as int) =~= s);
    }
}

/// Joining is repetition with the separator between: of no parts it is nothing, of one part it is
/// the part, and the parts of two lists that are not empty are joined apart, with one separator
/// between the two.
pub proof fn law_joined(a: Seq<Seq<char>>, b: Seq<Seq<char>>, part: Seq<char>, sep: Seq<char>)
    ensures
        joined(Seq::empty(), sep) == Seq::<char>::empty(),
        joined(seq![part], sep) == part,
        a.len() > 0 && b.len() > 0 ==> joined(a + b, sep) == joined(a, sep) + sep + joined(b, sep),
    decreases b.len(),
{
    if a.len() > 0 && b.len() > 0 {
        let all = a + b;
        assert(all.drop_last() =~= a + b.drop_last());
        assert(all.last() == b.last());
        if b.len() == 1 {
            assert(all.drop_last() =~= a);
            assert(joined(b, sep) == b[0]);
        } else {
            law_joined(a, b.drop_last(), part, sep);
            assert(joined(all, sep) =~= joined(a, sep) + sep + joined(b, sep));
        }
    }
}

/// A list of numbers stands in brackets, and one number more comes behind the others, with a
/// comma between.
pub proof fn law_number_lists(list: Seq<nat>, n: nat)
    ensures
        number_list(Seq::empty()) == "["@ + "]"@,
        number_list(seq![n]) == "["@ + dec(n) + "]"@,
        list.len() > 0 ==> number_list(list.push(n)) == "["@ + joined(decs(list), ", "@) + ", "@
            + dec(n) + "]"@,
        list.len() > 0 ==> number_list(list) == "["@ + joined(decs(list), ", "@) + "]"@,
{
    assert(decs(Seq::empty()) =~= Seq::empty());
    assert("["@ + Seq::<char>::empty() + "]"@ =~= "["@ + "]"@);
    assert(decs(seq![n]) =~= seq![dec(n)]);
    assert(decs(list.push(n)) =~= decs(list) + seq![dec(n)]);
    law_joined(decs(list), seq![dec(n)], dec(n), ", "@);
    if list.len() > 0 {
        assert(number_list(list.push(n)) =~= "["@ + joined(decs(list), ", "@) + ", "@ + dec(n)
            + "]"@);
    }
}

// ---------------------------------------------------------------------------
// White space and case
// ---------------------------------------------------------------------------

/// The characters with the Unicode property `White_Space`.
pub open spec fn is_space(c: char) -> bool {
    ||| '\u{9}' <= c <= '\u{d}'
    ||| c == '\u{20}'
    ||| c == '\u{85}'
    ||| c == '\u{a0}'
    ||| c == '\u{1680}'
    ||| '\u{2000}' <= c <= '\u{200a}'
    ||| c == '\u{2028}'
    ||| c == '\u{2029}'
    ||| c == '\u{202f}'
    ||| c == '\u{205f}'
    ||| c == '\u{3000}'
}

/// Whether `c` has the Unicode property `White_Space`.
fn space(c: char) -> (res: bool)
    ensures
        res == is_space(c),
{
    ('\u{9}' <= c && c <= '\u{d}') || c == '\u{20}' || c == '\u{85}' || c == '\u{a0}' || c
        == '\u{1680}' || ('\u{2000}' <= c && c <= '\u{200a}') || c == '\u{2028}' || c == '\u{2029}'
        || c == '\u{202f}' || c == '\u{205f}' || c == '\u{3000}'
}

/// `s` without the white space in front.
pub open spec fn trim_start(s: Seq<char>) -> Seq<char>
    decreases s.len(),
{
    if s.len() > 0 && is_space(s[0]) {
        trim_start(s.drop_first())
    } else {
        s
    }
}

/// `s` without the white space at its end.
pub open spec fn trim_end(s: Seq<char>) -> Seq<char>
    decreases s.len(),
{
    if s.len() > 0 && is_space(s.last()) {
        trim_end(s.drop_last())
    } else {
        s
    }
}

/// `s` without the white space in front and at its end.
pub open spec fn trimmed(s: Seq<char>) -> Seq<char> {
    trim_end(trim_start(s))
}

/// Every character of the text is white space.
pub open spec fn all_space(s: Seq<char>) -> bool {
    forall|i: int| 0 <= i < s.len() ==> is_space(#[trigger] s[i])
}

/// `s` is `kept` with nothing but white space in front and behind.
pub open spec fn is_trimmed_of(
    s: Seq<char>,
    front: Seq<char>,
    kept: Seq<char>,
    back: Seq<char>,
) -> bool {
    s == front + kept + back && all_space(front) && all_space(back)
}

/// What is trimmed off is white space and nothing else, and none is left at either end.
pub proof fn law_trimmed(s: Seq<char>)
    ensures
        exists|front: Seq<char>, back: Seq<char>| #[trigger]
            is_trimmed_of(s, front, trimmed(s), back),
        trimmed(s).len() > 0 ==> !is_space(trimmed(s)[0]) && !is_space(trimmed(s).last()),
{
    lemma_trim_start(s);
    let mid = trim_start(s);
    lemma_trim_end(mid);
    let front = s.take(s.len() - mid.len());
    let back = mid.skip(trimmed(s).len() as int);
    assert(s =~= front + trimmed(s) + back);
    assert(is_trimmed_of(s, front, trimmed(s), back));
    if trimmed(s).len() > 0 {
        assert(trimmed(s)[0] == mid[0]);
    }
}

proof fn lemma_trim_start(s: Seq<char>)
    ensures
        trim_start(s).len() <= s.len(),
        trim_start(s) == s.skip(s.len() - trim_start(s).len()),
        all_space(s.take(s.len() - trim_start(s).len())),
        trim_start(s).len() > 0 ==> !is_space(trim_start(s)[0]),
    decreases s.len(),
{
    if s.len() > 0 && is_space(s[0]) {
        let rest = s.drop_first();
        lemma_trim_start(rest);
        let n = s.len() - trim_start(s).len();
        assert(s.skip(n) =~= rest.skip(n - 1));
        assert forall|i: int| 0 <= i < n implies is_space(#[trigger] s.take(n)[i]) by {
            if i > 0 {
                assert(rest.take(n - 1)[i - 1] == s[i]);
            }
        }
    } else {
        assert(s.skip(0) =~= s);
    }
}

proof fn lemma_trim_end(s: Seq<char>)
    ensures
        trim_end(s).len() <= s.len(),
        trim_end(s) == s.take(trim_end(s).len() as int),
        all_space(s.skip(trim_end(s).len() as int)),
        trim_end(s).len() > 0 ==> !is_space(trim_end(s).last()),
    decreases s.len(),
{
    if s.len() > 0 && is_space(s.last()) {
        let rest = s.drop_last();
        lemma_trim_end(rest);
        let n = trim_end(s).len() as int;
        assert(s.take(n) =~= rest.take(n));
        assert forall|i: int| 0 <= i < s.len() - n implies is_space(#[trigger] s.skip(n)[i]) by {
            if i < s.len() - n - 1 {
                assert(rest.skip(n)[i] == s[n + i]);
            }
        }
    } else {
        assert(s.take(s.len() as int) =~= s);
    }
}

/// `s` without the white space in front and at its end.
pub fn trim_text(s: &str) -> (res: String)
    ensures
        res@ == trimmed(s@),
{
    let chars = chars_of(s);
    let mut from: usize = 0;
    assert(chars@.skip(0) =~= chars@);
    while from < chars.len() && space(chars[from])
        invariant
            from <= chars@.len(),
            chars@ == s@,
            trim_start(s@) == trim_start(chars@.skip(from as int)),
        decreases chars@.len() - from,
    {
        assert(chars@.skip(from as int).drop_first() =~= chars@.skip(from + 1));
        from += 1;
    }
    let mut to: usize = chars.len();
    assert(chars@.subrange(from as int, to as int) =~= chars@.skip(from as int));
    while to > from && space(chars[to - 1])
        invariant
            from <= to <= chars@.len(),
            trimmed(s@) == trim_end(chars@.subrange(from as int, to as int)),
        decreases to,
    {
        assert(chars@.subrange(from as int, to as int).drop_last() =~= chars@.subrange(
            from as int,
            to - 1,
        ));
        to -= 1;
    }
    slice_text(&chars, from, to)
}

/// The ASCII lower case of a character.
pub open spec fn lower_char(c: char) -> char {
    if 'A' <= c <= 'Z' {
        (c as u32 + 32) as char
    } else {
        c
    }
}

/// `s` with each ASCII capital replaced by its small letter.
pub open spec fn ascii_lower(s: Seq<char>) -> Seq<char> {
    s.map_values(|c: char| lower_char(c))
}

/// In lower case a text keeps its length and every character that is no ASCII capital; of the
/// capitals none is left, each replaced by the letter as far behind `a` as it was behind `A`.
pub proof fn law_ascii_lower(s: Seq<char>)
    ensures
        ascii_lower(s).len() == s.len(),
        ascii_lower(ascii_lower(s)) == ascii_lower(s),
        forall|i: int|
            0 <= i < s.len() && !('A' <= s[i] <= 'Z') ==> #[trigger] ascii_lower(s)[i] == s[i],
        forall|i: int|
            0 <= i < s.len() && 'A' <= s[i] <= 'Z' ==> #[trigger] ascii_lower(s)[i] as u32
                - 'a' as u32 == s[i] as u32 - 'A' as u32,
{
    assert forall|i: int| 0 <= i < s.len() && 'A' <= s[i] <= 'Z' implies #[trigger] ascii_lower(
        s,
    )[i] as u32 - 'a' as u32 == s[i] as u32 - 'A' as u32 by {
        assert('A' as u32 == 65 && 'Z' as u32 == 90 && 'a' as u32 == 97);
    }
    assert(ascii_lower(ascii_lower(s)) =~= ascii_lower(s));
}

/// The ASCII lower case of a character.
fn lower(c: char) -> (res: char)
    ensures
        res == lower_char(c),
{
    if 'A' <= c && c <= 'Z' {
        (c as u8 + 32) as char
    } else {
        c
    }
}

/// `s` with each ASCII capital replaced by its small letter.
pub fn ascii_lower_text(s: &str) -> (res: String)
    ensures
        res@ == ascii_lower(s@),
{
    let chars = chars_of(s);
    let mut out = String::new();
    for i in 0..chars.len()
        invariant
            out@ == ascii_lower(chars@.take(i as int)),
    {
        out.push(lower(chars[i]));
        assert(out@ =~= ascii_lower(chars@.take(i + 1)));
    }
    assert(chars@.take(chars@.len() as int) =~= chars@);
    out
}

} // verus!
