//! Text as a sequence of characters: case folding, numbers, words, search and
//! order.

use vstd::prelude::*;

verus! {

/// `String::push` appends the character `c`.
pub assume_specification[ String::push ](s: &mut String, c: char)
    ensures
        final(s)@ == old(s)@.push(c),
;

/// The lower-case form of a text, as `str::to_lowercase` computes it from the
/// Unicode tables.
pub uninterp spec fn lowercase(s: Seq<char>) -> Seq<char>;

/// The character has the Unicode property `White_Space`.
pub open spec fn white(c: char) -> bool {
    let n = c as int;
    ||| 0x9 <= n <= 0xd
    ||| n == 0x20
    ||| n == 0x85
    ||| n == 0xa0
    ||| n == 0x1680
    ||| 0x2000 <= n <= 0x200a
    ||| n == 0x2028
    ||| n == 0x2029
    ||| n == 0x202f
    ||| n == 0x205f
    ||| n == 0x3000
}

/// There is nothing but white space.
pub open spec fn all_white(s: Seq<char>) -> bool {
    forall|i: int| 0 <= i < s.len() ==> white(#[trigger] s[i])
}

/// `str::to_lowercase`. The result is named, not spelled out: it follows the
/// Unicode derived core property `Lowercase`. What is claimed of it besides: it goes
/// character by character, but for a sigma, where only the word that it stands in counts;
/// so a space parts a text into two that are taken by themselves, and white space at the
/// end, which has no case, stays as it is.
#[verifier::external_body]
pub(crate) fn to_lower(s: &str) -> (r: String)
    ensures
        r@ == lowercase(s@),
        forall|a: Seq<char>, b: Seq<char>|
            s@ == a + seq![' '] + b ==> r@ == #[trigger] lowercase(a) + seq![' ']
                + #[trigger] lowercase(b),
        forall|a: Seq<char>, b: Seq<char>|
            #![trigger lowercase(a), all_white(b)]
            s@ == a + b && all_white(b) ==> r@ == lowercase(a) + b,
{
    s.to_lowercase()
}

/// `char::is_whitespace`: the character has the Unicode property `White_Space`.
#[verifier::external_body]
fn is_white(c: char) -> (r: bool)
    ensures
        r == white(c),
{
    c.is_whitespace()
}

/// The characters of `s`.
pub fn chars_of(s: &str) -> (r: Vec<char>)
    ensures
        r@ == s@,
{
    let mut out: Vec<char> = Vec::new();
    for c in it: s.chars()
        invariant
            out@ == it.seq().take(it.index()),
    {
        out.push(c);
        assert(it.seq().take(it.index() + 1) =~= it.seq().take(it.index()).push(c));
    }
    assert(out@ =~= s@);
    out
}

/// The text made of `chars`.
pub fn text_of(chars: &Vec<char>) -> (r: String)
    ensures
        r@ == chars@,
{
    let mut out = String::new();
    let mut i: usize = 0;
    while i < chars.len()
        invariant
            i <= chars.len(),
            out@ == chars@.take(i as int),
        decreases chars.len() - i,
    {
        out.push(chars[i]);
        assert(chars@.take(i + 1) =~= chars@.take(i as int).push(chars[i as int]));
        i += 1;
    }
    assert(chars@.take(i as int) =~= chars@);
    out
}

/// Whether two texts have the same characters.
pub fn same_text(a: &str, b: &str) -> (r: bool)
    ensures
        r == (a@ == b@),
{
    let x = chars_of(a);
    let y = chars_of(b);
    if x.len() != y.len() {
        return false;
    }
    let mut i: usize = 0;
    while i < x.len()
        invariant
            i <= x.len(),
            x.len() == y.len(),
            x@ == a@,
            y@ == b@,
            forall|j: int| 0 <= j < i ==> x[j] == y[j],
        decreases x.len() - i,
    {
        if x[i] != y[i] {
            return false;
        }
        i += 1;
    }
    assert(x@ =~= y@);
    true
}

/// The decimal digit `d`.
pub open spec fn digit(d: int) -> char {
    if d == 0 {
        '0'
    } else if d == 1 {
        '1'
    } else if d == 2 {
        '2'
    } else if d == 3 {
        '3'
    } else if d == 4 {
        '4'
    } else if d == 5 {
        '5'
    } else if d == 6 {
        '6'
    } else if d == 7 {
        '7'
    } else if d == 8 {
        '8'
    } else {
        '9'
    }
}

/// The number in decimal notation, without leading zeros.
pub open spec fn decimal(n: nat) -> Seq<char>
    decreases n,
{
    if n < 10 {
        seq![digit(n as int)]
    } else {
        decimal(n / 10).push(digit((n % 10) as int))
    }
}

/// The number in decimal notation, with a leading zero below ten.
pub open spec fn two_digits(n: nat) -> Seq<char> {
    if n < 10 {
        seq!['0', digit(n as int)]
    } else {
        decimal(n)
    }
}

/// The number in decimal notation, with leading zeros below a hundred.
pub open spec fn three_digits(n: nat) -> Seq<char> {
    if n < 100 {
        seq!['0'] + two_digits(n)
    } else {
        decimal(n)
    }
}

fn digit_char(d: u64) -> (c: char)
    requires
        d < 10,
    ensures
        c == digit(d as int),
{
    match d {
        0 => '0',
        1 => '1',
        2 => '2',
        3 => '3',
        4 => '4',
        5 => '5',
        6 => '6',
        7 => '7',
        8 => '8',
        _ => '9',
    }
}

/// Appends `n` in decimal notation.
pub fn push_decimal(out: &mut String, n: u64)
    ensures
        final(out)@ == old(out)@ + decimal(n as nat),
    decreases n,
{
    if n >= 10 {
        push_decimal(out, n / 10);
    }
    out.push(digit_char(n % 10));
    assert(out@ =~= old(out)@ + decimal(n as nat));
}

/// Appends `n` in decimal notation, with a leading zero below ten.
pub fn push_two_digits(out: &mut String, n: u64)
    ensures
        final(out)@ == old(out)@ + two_digits(n as nat),
{
    if n < 10 {
        out.push('0');
    }
    push_decimal(out, n);
    assert(out@ =~= old(out)@ + two_digits(n as nat));
}

/// Appends `n` in decimal notation, with leading zeros below a hundred.
pub fn push_three_digits(out: &mut String, n: u64)
    ensures
        final(out)@ == old(out)@ + three_digits(n as nat),
{
    if n < 100 {
        out.push('0');
        push_two_digits(out, n);
    } else {
        push_decimal(out, n);
    }
    assert(out@ =~= old(out)@ + three_digits(n as nat));
}

/// The runs of characters between white space.
pub open spec fn words(s: Seq<char>) -> Seq<Seq<char>>
    decreases s.len(),
{
    if s.len() == 0 {
        Seq::empty()
    } else {
        let init = s.drop_last();
        let c = s.last();
        if white(c) {
            words(init)
        } else if init.len() == 0 || white(init.last()) {
            words(init).push(seq![c])
        } else {
            words(init).update(words(init).len() - 1, words(init).last().push(c))
        }
    }
}

proof fn lemma_word_at_end(s: Seq<char>)
    requires
        s.len() > 0,
        !white(s.last()),
    ensures
        words(s).len() > 0,
    decreases s.len(),
{
    let init = s.drop_last();
    if init.len() > 0 && !white(init.last()) {
        lemma_word_at_end(init);
    }
}

/// White space parts the words before it from those behind it.
pub proof fn lemma_words_parted(a: Seq<char>, c: char, b: Seq<char>)
    requires
        white(c),
    ensures
        words(a + seq![c] + b) == words(a) + words(b),
    decreases b.len(),
{
    let s = a + seq![c] + b;
    if b.len() == 0 {
        assert(s.drop_last() =~= a);
        assert(words(a) + words(b) =~= words(a));
    } else {
        let init = b.drop_last();
        lemma_words_parted(a, c, init);
        assert(s.drop_last() =~= a + seq![c] + init);
        if !white(b.last()) && init.len() > 0 && !white(init.last()) {
            lemma_word_at_end(init);
        }
        assert(words(s) =~= words(a) + words(b));
    }
}

/// White space holds no words.
pub proof fn lemma_white_has_no_words(s: Seq<char>)
    requires
        all_white(s),
    ensures
        words(s) == Seq::<Seq<char>>::empty(),
    decreases s.len(),
{
    if s.len() > 0 {
        assert(white(s[s.len() - 1]));
        lemma_white_has_no_words(s.drop_last());
    }
}

/// The texts held by `v`.
pub open spec fn views(v: Seq<Vec<char>>) -> Seq<Seq<char>> {
    Seq::new(v.len(), |i: int| v[i]@)
}

/// The words of `s`.
pub fn split_words(s: &str) -> (r: Vec<Vec<char>>)
    ensures
        views(r@) == words(s@),
{
    let chars = chars_of(s);
    let mut out: Vec<Vec<char>> = Vec::new();
    let mut cur: Vec<char> = Vec::new();
    let mut i: usize = 0;
    assert(views(out@) =~= words(chars@.take(0)));
    while i < chars.len()
        invariant
            i <= chars.len(),
            cur.len() == 0 <==> (i == 0 || white(chars[i - 1])),
            words(chars@.take(i as int)) == if cur.len() == 0 {
                views(out@)
            } else {
                views(out@).push(cur@)
            },
        decreases chars.len() - i,
    {
        let c = chars[i];
        let ghost before = chars@.take(i as int);
        let ghost after = chars@.take(i + 1);
        assert(after.drop_last() =~= before);
        if is_white(c) {
            if cur.len() > 0 {
                let ghost o = out@;
                let ghost w = cur@;
                out.push(cur);
                assert(views(out@) =~= views(o).push(w));
                cur = Vec::new();
            }
        } else {
            let ghost w = cur@;
            cur.push(c);
            proof {
                if w.len() == 0 {
                    assert(cur@ =~= seq![c]);
                }
                assert(words(after) =~= views(out@).push(cur@));
            }
        }
        i += 1;
    }
    assert(chars@.take(i as int) =~= s@);
    if cur.len() > 0 {
        let ghost o = out@;
        let ghost w = cur@;
        out.push(cur);
        assert(views(out@) =~= views(o).push(w));
    }
    out
}

/// A text without the white space at its beginning.
pub open spec fn trimmed_start(s: Seq<char>) -> Seq<char>
    decreases s.len(),
{
    if s.len() > 0 && white(s[0]) {
        trimmed_start(s.skip(1))
    } else {
        s
    }
}

/// A text without the white space at its end.
pub open spec fn trimmed_end(s: Seq<char>) -> Seq<char>
    decreases s.len(),
{
    if s.len() > 0 && white(s.last()) {
        trimmed_end(s.drop_last())
    } else {
        s
    }
}

/// A text without the white space at both its ends.
pub fn trim_text(s: &str) -> (r: String)
    ensures
        r@ == trimmed_end(trimmed_start(s@)),
{
    let chars = chars_of(s);
    let mut a: usize = 0;
    assert(chars@.skip(0) =~= chars@);
    while a < chars.len() && is_white(chars[a])
        invariant
            a <= chars@.len(),
            trimmed_start(chars@) == trimmed_start(chars@.skip(a as int)),
        decreases chars@.len() - a,
    {
        assert(chars@.skip(a as int).skip(1) =~= chars@.skip(a + 1));
        a += 1;
    }
    let ghost rest = chars@.skip(a as int);
    let mut b: usize = chars.len();
    assert(chars@.subrange(a as int, b as int) =~= rest);
    while b > a && is_white(chars[b - 1])
        invariant
            a <= b <= chars@.len(),
            trimmed_end(rest) == trimmed_end(chars@.subrange(a as int, b as int)),
        decreases b,
    {
        assert(chars@.subrange(a as int, b as int).drop_last() =~= chars@.subrange(
            a as int,
            b - 1,
        ));
        b -= 1;
    }
    let mut kept: Vec<char> = Vec::new();
    let mut i: usize = a;
    while i < b
        invariant
            a <= i <= b <= chars@.len(),
            kept@ == chars@.subrange(a as int, i as int),
        decreases b - i,
    {
        kept.push(chars[i]);
        i += 1;
        assert(kept@ =~= chars@.subrange(a as int, i as int));
    }
    text_of(&kept)
}

/// `needle` stands in `hay` from place `i` on.
pub open spec fn occurs_at(hay: Seq<char>, needle: Seq<char>, i: int) -> bool {
    0 <= i && i + needle.len() <= hay.len() && hay.subrange(i, i + needle.len()) == needle
}

/// `needle` stands somewhere in `hay`.
pub open spec fn occurs(hay: Seq<char>, needle: Seq<char>) -> bool {
    exists|i: int| occurs_at(hay, needle, i)
}

/// Whether `needle` stands somewhere in `hay`.
pub fn find_in(hay: &Vec<char>, needle: &Vec<char>) -> (r: bool)
    ensures
        r == occurs(hay@, needle@),
{
    let n: usize = needle.len();
    if n > hay.len() {
        return false;
    }
    let last: usize = hay.len() - n;
    let mut i: usize = 0;
    while i <= last
        invariant
            n == needle.len(),
            last == hay.len() - n,
            i <= last + 1,
            forall|k: int| 0 <= k < i ==> !occurs_at(hay@, needle@, k),
        decreases last + 1 - i,
    {
        let mut j: usize = 0;
        while j < n && hay[i + j] == needle[j]
            invariant
                n == needle.len(),
                i + n <= hay.len(),
                j <= n,
                forall|k: int| 0 <= k < j ==> hay[i + k] == needle[k],
            decreases n - j,
        {
            j += 1;
        }
        if j == n {
            assert(hay@.subrange(i as int, i + n) =~= needle@);
            assert(occurs_at(hay@, needle@, i as int));
            return true;
        }
        assert(!occurs_at(hay@, needle@, i as int)) by {
            assert(hay@.subrange(i as int, i + n)[j as int] == hay@[i + j]);
        }
        if i == last {
            assert(forall|k: int| occurs_at(hay@, needle@, k) ==> 0 <= k <= last);
            return false;
        }
        i += 1;
    }
    false
}

/// `a` comes before `b`, character by character in the order of their codes.
pub open spec fn precedes(a: Seq<char>, b: Seq<char>) -> bool
    decreases b.len(),
{
    if b.len() == 0 {
        false
    } else if a.len() == 0 {
        true
    } else if a[0] != b[0] {
        (a[0] as u32) < (b[0] as u32)
    } else {
        precedes(a.drop_first(), b.drop_first())
    }
}

/// Whether `a` comes before `b`.
pub fn comes_before(a: &Vec<char>, b: &Vec<char>) -> (r: bool)
    ensures
        r == precedes(a@, b@),
{
    let mut i: usize = 0;
    assert(a@.skip(0) =~= a@);
    assert(b@.skip(0) =~= b@);
    while i < a.len() && i < b.len() && a[i] == b[i]
        invariant
            i <= a.len(),
            i <= b.len(),
            precedes(a@, b@) == precedes(a@.skip(i as int), b@.skip(i as int)),
        decreases a.len() - i,
    {
        assert(a@.skip(i as int).drop_first() =~= a@.skip(i + 1));
        assert(b@.skip(i as int).drop_first() =~= b@.skip(i + 1));
        i += 1;
    }
    if i >= b.len() {
        false
    } else if i >= a.len() {
        true
    } else {
        let x: char = a[i];
        let y: char = b[i];
        assert(a@.skip(i as int)[0] == x);
        assert(b@.skip(i as int)[0] == y);
        (x as u32) < (y as u32)
    }
}

proof fn lemma_char_code(x: char, y: char)
    ensures
        x as u32 == y as u32 ==> x == y,
{
}

/// What comes before a third text comes before, or after it comes, any second one.
pub proof fn lemma_precedes_between(a: Seq<char>, b: Seq<char>, c: Seq<char>)
    requires
        precedes(a, c),
    ensures
        precedes(a, b) || precedes(b, c),
    decreases c.len(),
{
    if b.len() > 0 && a.len() > 0 {
        lemma_char_code(a[0], b[0]);
    }
    if b.len() > 0 && a.len() > 0 && a[0] == b[0] && b[0] == c[0] {
        lemma_precedes_between(a.drop_first(), b.drop_first(), c.drop_first());
    }
}

/// Of two texts at most one comes before the other.
pub proof fn lemma_precedes_antisymmetric(a: Seq<char>, b: Seq<char>)
    ensures
        !(precedes(a, b) && precedes(b, a)),
    decreases b.len(),
{
    if a.len() > 0 && b.len() > 0 && a[0] == b[0] {
        lemma_precedes_antisymmetric(a.drop_first(), b.drop_first());
    }
}

/// The number that some digits stand for.
pub open spec fn value_of(s: Seq<char>) -> int
    decreases s.len(),
{
    if s.len() == 0 {
        0
    } else {
        value_of(s.drop_last()) * 10 + (s.last() as int - '0' as int)
    }
}

/// All characters are digits.
pub open spec fn all_digits(s: Seq<char>) -> bool {
    forall|i: int| 0 <= i < s.len() ==> '0' as int <= #[trigger] s[i] as int <= '9' as int
}

/// A number that is written down reads back as the same number, in digits alone and
/// without a needless nought before it.
pub proof fn law_number_reads_back(n: nat)
    ensures
        value_of(decimal(n)) == n,
        all_digits(decimal(n)),
        decimal(n).len() >= 1,
        n > 0 ==> decimal(n)[0] != '0',
    decreases n,
{
    reveal_with_fuel(value_of, 2);
    if n >= 10 {
        law_number_reads_back(n / 10);
        let rest = decimal(n / 10);
        let d = digit((n % 10) as int);
        assert(rest.push(d).drop_last() =~= rest);
        assert(d as int - '0' as int == n % 10);
    } else {
        let one = seq![digit(n as int)];
        assert(one.drop_last() =~= Seq::<char>::empty());
        assert(digit(n as int) as int - '0' as int == n);
    }
}

/// A number below a hundred that is written with two digits reads back, and so does one
/// below a thousand that is written with three.
pub proof fn law_padded_number_reads_back(n: nat)
    ensures
        n < 100 ==> two_digits(n).len() == 2 && value_of(two_digits(n)) == n,
        n < 1000 ==> three_digits(n).len() == 3 && value_of(three_digits(n)) == n,
        all_digits(two_digits(n)) && all_digits(three_digits(n)),
{
    reveal_with_fuel(value_of, 4);
    reveal_with_fuel(decimal, 4);
    law_number_reads_back(n);
    if n < 10 {
        let s = seq!['0', digit(n as int)];
        assert(s.drop_last() =~= seq!['0']);
        assert(seq!['0'].drop_last() =~= Seq::<char>::empty());
        let t = seq!['0'] + s;
        assert(t.drop_last() =~= seq!['0', '0']);
        assert(seq!['0', '0'].drop_last() =~= seq!['0']);
        assert(digit(n as int) as int - '0' as int == n);
    } else if n < 100 {
        let s = decimal(n);
        assert(s =~= seq![digit((n / 10) as int), digit((n % 10) as int)]);
        let t = seq!['0'] + s;
        assert(t.drop_last() =~= seq!['0', digit((n / 10) as int)]);
        assert(t.drop_last().drop_last() =~= seq!['0']);
        assert(seq!['0'].drop_last() =~= Seq::<char>::empty());
        assert(digit((n / 10) as int) as int - '0' as int == n / 10);
        assert(digit((n % 10) as int) as int - '0' as int == n % 10);
    } else if n < 1000 {
        assert(decimal(n) =~= seq![
            digit((n / 100) as int),
            digit((n / 10 % 10) as int),
            digit((n % 10) as int),
        ]);
    }
}

/// One text comes before another exactly where it is a shorter beginning of it, or has the
/// lesser character at the first place at which they differ.
pub proof fn law_texts_in_dictionary_order(a: Seq<char>, b: Seq<char>)
    ensures
        precedes(a, b) <==> exists|k: int|
            0 <= k < b.len() && k <= a.len() && #[trigger] a.take(k) == b.take(k) && (k == a.len()
                || (k < a.len() && (a[k] as u32) < (b[k] as u32))),
    decreases b.len(),
{
    if b.len() > 0 && a.len() > 0 && a[0] == b[0] {
        let c = a.drop_first();
        let d = b.drop_first();
        law_texts_in_dictionary_order(c, d);
        if precedes(c, d) {
            let k = choose|k: int|
                0 <= k < d.len() && k <= c.len() && #[trigger] c.take(k) == d.take(k) && (k
                    == c.len() || (k < c.len() && (c[k] as u32) < (d[k] as u32)));
            assert(a.take(k + 1) =~= seq![a[0]] + c.take(k));
            assert(b.take(k + 1) =~= seq![b[0]] + d.take(k));
        }
        if exists|k: int|
            0 <= k < b.len() && k <= a.len() && #[trigger] a.take(k) == b.take(k) && (k == a.len()
                || (k < a.len() && (a[k] as u32) < (b[k] as u32))) {
            let k = choose|k: int|
                0 <= k < b.len() && k <= a.len() && #[trigger] a.take(k) == b.take(k) && (k
                    == a.len() || (k < a.len() && (a[k] as u32) < (b[k] as u32)));
            assert(k > 0);
            assert(c.take(k - 1) =~= a.take(k).drop_first());
            assert(d.take(k - 1) =~= b.take(k).drop_first());
        }
    } else if b.len() > 0 {
        assert(a.take(0) =~= b.take(0));
        if a.len() > 0 {
            assert forall|k: int|
                0 < k < b.len() && k <= a.len() implies #[trigger] a.take(k) != b.take(k) by {
                assert(a.take(k)[0] == a[0] && b.take(k)[0] == b[0]);
            }
        }
    }
}

/// The words of a text are not empty, hold no white space, and hold one after the other
/// all that is not white space.
pub proof fn law_words_hold_all_but_white(s: Seq<char>)
    ensures
        forall|i: int|
            0 <= i < words(s).len() ==> (#[trigger] words(s)[i]).len() > 0 && no_white(words(s)[i]),
        words(s).flatten() == s.filter(|c: char| !white(c)),
        s.len() > 0 && !white(s.last()) ==> words(s).len() > 0,
    decreases s.len(),
{
    reveal(Seq::filter);
    let keep = |c: char| !white(c);
    if s.len() == 0 {
        assert(words(s).flatten() =~= s.filter(keep));
    } else {
        let init = s.drop_last();
        let c = s.last();
        let w = words(init);
        law_words_hold_all_but_white(init);
        if white(c) {
        } else if init.len() == 0 || white(init.last()) {
            let r = w.push(seq![c]);
            assert(words(s) == r);
            assert forall|i: int| 0 <= i < r.len() implies (#[trigger] r[i]).len() > 0 && no_white(
                r[i],
            ) by {
                if i < w.len() {
                    assert(r[i] == w[i]);
                }
            }
            lemma_flatten_push(w, seq![c]);
            assert(w.flatten() + seq![c] =~= w.flatten().push(c));
        } else {
            let n = w.len() - 1;
            let first = w.drop_last();
            let last = w.last();
            let r = w.update(n, last.push(c));
            assert(words(s) == r);
            assert(w[n] == last);
            assert forall|i: int| 0 <= i < r.len() implies (#[trigger] r[i]).len() > 0 && no_white(
                r[i],
            ) by {
                if i < n {
                    assert(r[i] == w[i]);
                } else {
                    assert(no_white(w[n]));
                }
            }
            assert(w =~= first.push(last));
            assert(r =~= first.push(last.push(c)));
            lemma_flatten_push(first, last);
            lemma_flatten_push(first, last.push(c));
            assert(first.flatten() + last.push(c) =~= (first.flatten() + last).push(c));
        }
    }
}

/// No character is white space.
pub open spec fn no_white(s: Seq<char>) -> bool {
    forall|i: int| 0 <= i < s.len() ==> !white(#[trigger] s[i])
}

proof fn lemma_flatten_push(s: Seq<Seq<char>>, x: Seq<char>)
    ensures
        s.push(x).flatten() == s.flatten() + x,
    decreases s.len(),
{
    if s.len() == 0 {
        assert(s.push(x).first() == x);
        assert(s.push(x).drop_first() =~= Seq::<Seq<char>>::empty());
        assert(Seq::<Seq<char>>::empty().flatten() =~= Seq::<char>::empty());
        assert(s.flatten() =~= Seq::<char>::empty());
        assert(s.push(x).flatten() =~= x + Seq::<char>::empty());
        assert(s.push(x).flatten() =~= s.flatten() + x);
    } else {
        lemma_flatten_push(s.drop_first(), x);
        assert(s.push(x).drop_first() =~= s.drop_first().push(x));
        assert(s.push(x).first() == s.first());
        assert(s.push(x).flatten() =~= s.flatten() + x);
    }
}

/// Words are parted by white space: what stands on either side of it has its own words. A
/// text without white space is one word.
pub proof fn law_white_space_parts_words(a: Seq<char>, c: char, b: Seq<char>)
    requires
        white(c),
    ensures
        words(a + seq![c] + b) == words(a) + words(b),
        a.len() > 0 && no_white(a) ==> words(a) == seq![a],
{
    lemma_words_parted(a, c, b);
    if a.len() > 0 && no_white(a) {
        lemma_one_word(a);
    }
}

proof fn lemma_one_word(a: Seq<char>)
    requires
        a.len() > 0,
        no_white(a),
    ensures
        words(a) == seq![a],
    decreases a.len(),
{
    let init = a.drop_last();
    let c = a.last();
    assert(!white(a[a.len() - 1]));
    if init.len() > 0 {
        assert forall|i: int| 0 <= i < init.len() implies !white(#[trigger] init[i]) by {
            assert(init[i] == a[i]);
        }
        lemma_one_word(init);
        assert(!white(init[init.len() - 1]));
        assert(seq![init].update(0, init.push(c)) =~= seq![a]) by {
            assert(init.push(c) =~= a);
        }
    } else {
        assert(words(init) =~= Seq::<Seq<char>>::empty());
        assert(seq![c] =~= a);
        assert(words(a) =~= seq![a]);
    }
}

/// Trimming takes the white space off an end, and nothing else.
pub proof fn law_trimming_takes_white_space_alone(s: Seq<char>)
    ensures
        ({
            let a = trimmed_start(s);
            &&& a.len() <= s.len() && a == s.skip(s.len() - a.len())
            &&& forall|i: int| 0 <= i < s.len() - a.len() ==> white(#[trigger] s[i])
            &&& a.len() > 0 ==> !white(a[0])
        }),
        ({
            let b = trimmed_end(s);
            &&& b.len() <= s.len() && b == s.take(b.len() as int)
            &&& forall|i: int| b.len() <= i < s.len() ==> white(#[trigger] s[i])
            &&& b.len() > 0 ==> !white(b.last())
        }),
    decreases s.len(),
{
    if s.len() > 0 && white(s[0]) {
        let rest = s.skip(1);
        law_trimming_takes_white_space_alone(rest);
        let a = trimmed_start(s);
        assert(rest.skip(rest.len() - a.len()) =~= s.skip(s.len() - a.len()));
        assert forall|i: int| 0 <= i < s.len() - a.len() implies white(#[trigger] s[i]) by {
            if i > 0 {
                assert(rest[i - 1] == s[i]);
            }
        }
    } else {
        assert(s.skip(0) =~= s);
    }
    if s.len() > 0 && white(s.last()) {
        let init = s.drop_last();
        law_trimming_takes_white_space_alone(init);
        let b = trimmed_end(s);
        assert(init.take(b.len() as int) =~= s.take(b.len() as int));
        assert forall|i: int| b.len() <= i < s.len() implies white(#[trigger] s[i]) by {
            if i < init.len() {
                assert(init[i] == s[i]);
            }
        }
    } else {
        assert(s.take(s.len() as int) =~= s);
    }
}

} // verus!
