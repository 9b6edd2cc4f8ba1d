use vstd::prelude::*;

verus! {

/// `std`'s `String::push`: appends a character.
#[verifier::external_body]
pub fn string_push(s: &mut String, c: char)
    ensures
        final(s)@ == old(s)@.push(c),
{
    s.push(c);
}

/// The characters of a string.
pub fn chars_of(s: &str) -> (r: Vec<char>)
    ensures
        r@ == s@,
{
    let mut res: Vec<char> = Vec::new();
    for c in it: s.chars()
        invariant
            it.seq() == s@,
            res@ == it.seq().take(it.index() as int),
    {
        res.push(c);
        proof {
            assert(it.seq().take(it.index() + 1) == it.seq().take(it.index() as int).push(c));
        }
    }
    proof {
        assert(s@.take(s@.len() as int) == s@);
    }
    res
}

/// A string holding the given characters.
pub fn string_of(v: &[char]) -> (r: String)
    ensures
        r@ == v@,
{
    let mut res = String::new();
    let mut i: usize = 0;
    while i < v.len()
        invariant
            i <= v@.len(),
            res@ == v@.take(i as int),
        decreases v@.len() - i,
    {
        string_push(&mut res, v[i]);
        proof {
            assert(v@.take(i + 1) == v@.take(i as int).push(v@[i as int]));
        }
        i = i + 1;
    }
    proof {
        assert(v@.take(v@.len() as int) == v@);
    }
    res
}

/// Whether a character is ASCII, that is one byte long in UTF-8.
pub fn is_ascii(c: char) -> (r: bool)
    ensures
        r == ((c as int) < 0x80),
{
    (c as u32) < 0x80
}

/// Whether a character is one of the ASCII digits `0` to `9`.
pub open spec fn is_digit(c: char) -> bool {
    '0' <= c && c <= '9'
}

/// The value of an ASCII digit.
pub open spec fn digit_value(c: char) -> int {
    c as int - '0' as int
}

/// The digit character of a number below ten.
pub open spec fn digit_char(d: int) -> char {
    (d + '0' as int) as char
}

/// The decimal notation of a number, without leading zeros (`0` for zero).
pub open spec fn decimal(n: nat) -> Seq<char>
    decreases n,
{
    if n < 10 {
        seq![digit_char(n as int)]
    } else {
        decimal(n / 10).push(digit_char((n % 10) as int))
    }
}

/// The digit character of a number below ten.
pub fn digit_to_char(d: u8) -> (r: char)
    requires
        d < 10,
    ensures
        r == digit_char(d as int),
{
    match d {
        0 => '0',
        1 => '1',
        2 => '2',
        3 => '3',
        4 => '4',
        5 => '5',
        6 => '6',
        7 => '7',
        8 => '8',
        _ => '9',
    }
}

/// The value of an ASCII digit.
pub fn char_to_digit(c: char) -> (r: u8)
    requires
        is_digit(c),
    ensures
        r == digit_value(c),
{
    (c as u32 - '0' as u32) as u8
}

/// Appends the decimal notation of a number.
pub fn push_decimal(out: &mut Vec<char>, n: u64)
    ensures
        final(out)@ == old(out)@ + decimal(n as nat),
    decreases n,
{
    if n < 10 {
        out.push(digit_to_char(n as u8));
        proof {
            assert(old(out)@.push(digit_char(n as int)) == old(out)@ + seq![digit_char(n as int)]);
        }
    } else {
        push_decimal(out, n / 10);
        out.push(digit_to_char((n % 10) as u8));
        proof {
            let d = decimal((n / 10) as nat);
            assert(old(out)@ + d.push(digit_char((n % 10) as int)) == (old(out)@ + d).push(
                digit_char((n % 10) as int),
            ));
        }
    }
}

/// Whether a character is white space: one of the characters with the Unicode
/// `White_Space` property.
pub open spec fn is_space(c: char) -> bool {
    ||| c == ' '
    ||| '\u{9}' <= c && c <= '\u{d}'
    ||| c == '\u{85}'
    ||| c == '\u{a0}'
    ||| c == '\u{1680}'
    ||| '\u{2000}' <= c && c <= '\u{200a}'
    ||| c == '\u{2028}'
    ||| c == '\u{2029}'
    ||| c == '\u{202f}'
    ||| c == '\u{205f}'
    ||| c == '\u{3000}'
}

/// Whether a character is white space.
pub fn char_is_space(c: char) -> (r: bool)
    ensures
        r == is_space(c),
{
    c == ' ' || ('\u{9}' <= c && c <= '\u{d}') || c == '\u{85}' || c == '\u{a0}' || c == '\u{1680}'
        || ('\u{2000}' <= c && c <= '\u{200a}') || c == '\u{2028}' || c == '\u{2029}' || c == '\u{202f}'
        || c == '\u{205f}' || c == '\u{3000}'
}

/// The words of a text: its longest runs of characters that are not white space, in order.
pub open spec fn words(s: Seq<char>) -> Seq<Seq<char>>
    decreases s.len(),
{
    if s.len() == 0 {
        Seq::empty()
    } else {
        let w = words(s.drop_last());
        let c = s.last();
        if is_space(c) {
            w
        } else if s.len() >= 2 && !is_space(s[s.len() - 2]) {
            w.update(w.len() - 1, w.last().push(c))
        } else {
            w.push(seq![c])
        }
    }
}

/// The character sequences held by a list of character vectors.
pub open spec fn views(v: Seq<Vec<char>>) -> Seq<Seq<char>> {
    v.map_values(|w: Vec<char>| w@)
}

/// The words of a text that ends in white space or in the word `cur`.
spec fn words_so_far(done: Seq<Vec<char>>, cur: Seq<char>) -> Seq<Seq<char>> {
    if cur.len() > 0 {
        views(done).push(cur)
    } else {
        views(done)
    }
}

/// Splits a text into its words.
pub fn split_words(s: &str) -> (r: Vec<Vec<char>>)
    ensures
        views(r@) == words(s@),
{
    let chars = chars_of(s);
    let mut done: Vec<Vec<char>> = Vec::new();
    let mut cur: Vec<char> = Vec::new();
    let mut i: usize = 0;
    while i < chars.len()
        invariant
            i <= chars@.len(),
            chars@ == s@,
            words_so_far(done@, cur@) == words(s@.take(i as int)),
            cur@.len() > 0 <==> (i > 0 && !is_space(s@[i - 1])),
        decreases chars@.len() - i,
    {
        let c = chars[i];
        let ghost prev = s@.take(i as int);
        let ghost d0 = done@;
        let ghost c0 = cur@;
        assert(s@.take(i + 1).drop_last() =~= prev);
        assert(s@.take(i + 1).last() == c);
        if char_is_space(c) {
            if cur.len() > 0 {
                let w = cur;
                done.push(w);
                cur = Vec::new();
                assert(views(done@) =~= views(d0).push(c0));
            }
        } else {
            cur.push(c);
            proof {
                if c0.len() > 0 {
                    assert(words(s@.take(i + 1)) =~= views(d0).push(c0).update(views(d0).len() as int, c0.push(c)));
                    assert(views(d0).push(c0).update(views(d0).len() as int, c0.push(c)) =~= views(d0).push(cur@));
                } else {
                    assert(words(s@.take(i + 1)) =~= views(d0).push(seq![c]));
                    assert(cur@ =~= seq![c]);
                }
            }
        }
        i = i + 1;
    }
    let ghost d0 = done@;
    let ghost c0 = cur@;
    if cur.len() > 0 {
        done.push(cur);
        assert(views(done@) =~= views(d0).push(c0));
    }
    assert(s@.take(s@.len() as int) =~= s@);
    done
}

/// Whether a word is the given text.
pub fn word_is(w: &[char], lit: &str) -> (r: bool)
    ensures
        r == (w@ == lit@),
{
    let l = chars_of(lit);
    if w.len() != l.len() {
        return false;
    }
    let mut i: usize = 0;
    while i < w.len()
        invariant
            i <= w@.len(),
            w@.len() == l@.len(),
            l@ == lit@,
            forall|j: int| 0 <= j < i ==> w@[j] == l@[j],
        decreases w@.len() - i,
    {
        if w[i] != l[i] {
            return false;
        }
        i = i + 1;
    }
    assert(w@ =~= l@);
    true
}

/// Whether two words hold the same characters.
pub fn chars_equal(a: &[char], b: &[char]) -> (r: bool)
    ensures
        r == (a@ == b@),
{
    if a.len() != b.len() {
        return false;
    }
    let mut i: usize = 0;
    while i < a.len()
        invariant
            i <= a@.len(),
            a@.len() == b@.len(),
            forall|j: int| 0 <= j < i ==> a@[j] == b@[j],
        decreases a@.len() - i,
    {
        if a[i] != b[i] {
            return false;
        }
        i = i + 1;
    }
    assert(a@ =~= b@);
    true
}

/// Whether every character is a digit.
pub open spec fn all_digits(s: Seq<char>) -> bool {
    forall|i: int| 0 <= i < s.len() ==> is_digit(#[trigger] s[i])
}

/// The number written by a run of digits.
pub open spec fn digits_value(s: Seq<char>) -> nat
    decreases s.len(),
{
    if s.len() == 0 {
        0
    } else {
        digits_value(s.drop_last()) * 10 + digit_value(s.last()) as nat
    }
}

/// The number an unsigned decimal stands for: at least one digit, after an optional `+`.
pub open spec fn unsigned_value(s: Seq<char>) -> Option<nat> {
    let d = if s.len() > 0 && s[0] == '+' {
        s.subrange(1, s.len() as int)
    } else {
        s
    };
    if d.len() > 0 && all_digits(d) {
        Some(digits_value(d))
    } else {
        None
    }
}

/// The number a signed decimal stands for: at least one digit, after an optional `+` or
/// `-`.
pub open spec fn signed_value(s: Seq<char>) -> Option<int> {
    if s.len() > 0 && s[0] == '-' {
        let d = s.subrange(1, s.len() as int);
        if d.len() > 0 && all_digits(d) {
            Some(-(digits_value(d) as int))
        } else {
            None
        }
    } else {
        match unsigned_value(s) {
            Some(v) => Some(v as int),
            None => None,
        }
    }
}

/// The unsigned decimal in `s`, when it is at most `max`.
pub open spec fn unsigned_at_most(s: Seq<char>, max: int) -> Option<int> {
    match unsigned_value(s) {
        Some(v) => if v <= max {
            Some(v as int)
        } else {
            None
        },
        None => None,
    }
}

/// The signed decimal in `s`, when it lies between `min` and `max`.
pub open spec fn signed_between(s: Seq<char>, min: int, max: int) -> Option<int> {
    match signed_value(s) {
        Some(v) => if min <= v <= max {
            Some(v)
        } else {
            None
        },
        None => None,
    }
}

/// Reads the digits of `s` from `start` on as a number of at most `max`.
fn digits_at_most(s: &[char], start: usize, max: u64) -> (r: Option<u64>)
    requires
        start <= s@.len(),
    ensures
        ({
            let d = s@.subrange(start as int, s@.len() as int);
            match r {
                Some(v) => d.len() > 0 && all_digits(d) && v == digits_value(d) && v <= max,
                None => !(d.len() > 0 && all_digits(d) && digits_value(d) <= max),
            }
        }),
{
    let ghost d = s@.subrange(start as int, s@.len() as int);
    if start >= s.len() {
        return None;
    }
    let mut acc: u64 = 0;
    let mut big = false;
    let mut i: usize = start;
    while i < s.len()
        invariant
            start <= i <= s@.len(),
            d == s@.subrange(start as int, s@.len() as int),
            all_digits(d.take(i - start)),
            big ==> digits_value(d.take(i - start)) > max,
            !big ==> acc == digits_value(d.take(i - start)) && acc <= max,
        decreases s@.len() - i,
    {
        let c = s[i];
        let ghost pre = d.take(i - start);
        assert(d.take(i + 1 - start).drop_last() =~= pre);
        assert(d.take(i + 1 - start).last() == c);
        if !('0' <= c && c <= '9') {
            assert(!all_digits(d)) by {
                assert(d[i - start] == c);
            }
            return None;
        }
        let v = char_to_digit(c) as u64;
        if !big {
            if v > max || acc > (max - v) / 10 {
                assert(acc * 10 + v > max) by (nonlinear_arith)
                    requires
                        v > max || acc > (max - v) / 10,
                        acc >= 0,
                ;
                big = true;
            } else {
                assert(acc * 10 + v <= max) by (nonlinear_arith)
                    requires
                        acc <= (max - v) / 10,
                        v <= max,
                ;
                acc = acc * 10 + v;
            }
        } else {
            assert(digits_value(d.take(i + 1 - start)) > max) by (nonlinear_arith)
                requires
                    digits_value(d.take(i + 1 - start)) == digits_value(pre) * 10 + v,
                    digits_value(pre) > max,
            ;
        }
        assert(all_digits(d.take(i + 1 - start))) by {
            assert forall|j: int| 0 <= j < i + 1 - start implies is_digit(#[trigger] d.take(i + 1 - start)[j]) by {
                if j < i - start {
                    assert(d.take(i + 1 - start)[j] == pre[j]);
                }
            }
        }
        i = i + 1;
    }
    assert(d.take(s@.len() - start) =~= d);
    if big {
        None
    } else {
        Some(acc)
    }
}

/// An unsigned decimal of at most `max`.
pub fn parse_unsigned(s: &[char], max: u64) -> (r: Option<u64>)
    ensures
        r is Some <==> unsigned_at_most(s@, max as int) is Some,
        r matches Some(v) ==> v == unsigned_at_most(s@, max as int)->0,
{
    let start: usize = if s.len() > 0 && s[0] == '+' { 1 } else { 0 };
    proof {
        if start == 0 {
            assert(s@.subrange(0, s@.len() as int) =~= s@);
        }
    }
    digits_at_most(s, start, max)
}

/// A signed decimal between `-min_magnitude` and `max`, for limits of at most `2^63`.
pub fn parse_signed(s: &[char], min_magnitude: u64, max: u64) -> (r: Option<i64>)
    requires
        min_magnitude <= 0x8000_0000_0000_0000,
        max < 0x8000_0000_0000_0000,
    ensures
        r is Some <==> signed_between(s@, -(min_magnitude as int), max as int) is Some,
        r matches Some(v) ==> v == signed_between(s@, -(min_magnitude as int), max as int)->0,
{
    if s.len() > 0 && s[0] == '-' {
        match digits_at_most(s, 1, min_magnitude) {
            Some(m) => {
                if m == 0x8000_0000_0000_0000 {
                    Some(i64::MIN)
                } else {
                    Some(-(m as i64))
                }
            },
            None => None,
        }
    } else {
        match parse_unsigned(s, max) {
            Some(v) => Some(v as i64),
            None => None,
        }
    }
}

/// The decimal notation of an integer, with a `-` before a negative one.
pub open spec fn signed_decimal(v: int) -> Seq<char> {
    if v < 0 {
        seq!['-'] + decimal((-v) as nat)
    } else {
        decimal(v as nat)
    }
}

/// Appends the decimal notation of a signed number.
pub fn push_signed(out: &mut Vec<char>, v: i64)
    ensures
        final(out)@ == old(out)@ + signed_decimal(v as int),
{
    if v < 0 {
        out.push('-');
        let m: u64 = (-(v + 1)) as u64 + 1;
        let ghost mid = out@;
        push_decimal(out, m);
        assert(out@ =~= old(out)@ + signed_decimal(v as int));
    } else {
        push_decimal(out, v as u64);
    }
}

/// The words joined with single spaces between them.
pub open spec fn join_words(ws: Seq<Seq<char>>) -> Seq<char>
    decreases ws.len(),
{
    if ws.len() == 0 {
        Seq::empty()
    } else if ws.len() == 1 {
        ws[0]
    } else {
        join_words(ws.drop_last()) + seq![' '] + ws.last()
    }
}

/// Appends the words from `start` up to `end`, joined with single spaces.
pub fn push_joined(out: &mut Vec<char>, ws: &Vec<Vec<char>>, start: usize, end: usize)
    requires
        start <= end <= ws@.len(),
    ensures
        final(out)@ == old(out)@ + join_words(views(ws@).subrange(start as int, end as int)),
{
    let ghost all = views(ws@);
    let mut i: usize = start;
    while i < end
        invariant
            start <= i <= end,
            end <= ws@.len(),
            all == views(ws@),
            out@ == old(out)@ + join_words(all.subrange(start as int, i as int)),
        decreases end - i,
    {
        if i > start {
            out.push(' ');
        }
        let mut j: usize = 0;
        let ghost mid = out@;
        while j < ws[i].len()
            invariant
                i < ws@.len(),
                j <= ws@[i as int]@.len(),
                out@ == mid + ws@[i as int]@.take(j as int),
            decreases ws@[i as int]@.len() - j,
        {
            out.push(ws[i][j]);
            assert(ws@[i as int]@.take(j + 1) =~= ws@[i as int]@.take(j as int).push(ws@[i as int]@[j as int]));
            j = j + 1;
        }
        assert(ws@[i as int]@.take(j as int) =~= ws@[i as int]@);
        let ghost part = all.subrange(start as int, i + 1);
        assert(part.drop_last() =~= all.subrange(start as int, i as int));
        assert(part.last() == ws@[i as int]@);
        proof {
            if i == start {
                assert(part.len() == 1);
            }
        }
        i = i + 1;
    }
}

/// Appends the characters of a word.
pub fn push_word(out: &mut Vec<char>, w: &[char])
    ensures
        final(out)@ == old(out)@ + w@,
{
    let mut j: usize = 0;
    while j < w.len()
        invariant
            j <= w@.len(),
            out@ == old(out)@ + w@.take(j as int),
        decreases w@.len() - j,
    {
        out.push(w[j]);
        assert(w@.take(j + 1) =~= w@.take(j as int).push(w@[j as int]));
        j = j + 1;
    }
    assert(w@.take(j as int) =~= w@);
}

/// Appends the characters of a text.
pub fn push_str(out: &mut Vec<char>, s: &str)
    ensures
        final(out)@ == old(out)@ + s@,
{
    let w = chars_of(s);
    push_word(out, &w);
}

/// Whether a text is a single word: not empty, and with no white space in it.
pub open spec fn is_word(w: Seq<char>) -> bool {
    w.len() > 0 && forall|i: int| 0 <= i < w.len() ==> !is_space(#[trigger] w[i])
}

/// A single word is the only word of its text.
pub proof fn lemma_words_single(w: Seq<char>)
    requires
        is_word(w),
    ensures
        words(w) == seq![w],
    decreases w.len(),
{
    if w.len() == 1 {
        assert(w.drop_last() =~= Seq::<char>::empty());
        assert(words(w.drop_last()) =~= Seq::<Seq<char>>::empty());
        assert(seq![w.last()] =~= w);
        assert(words(w) =~= seq![w]);
    } else {
        let d = w.drop_last();
        assert(forall|i: int| 0 <= i < d.len() ==> d[i] == w[i]);
        lemma_words_single(d);
        assert(d.push(w.last()) =~= w);
        assert(!is_space(w[w.len() - 2]));
        assert(seq![d].update(0, d.push(w.last())) =~= seq![w]);
    }
}

/// A text that ends in a character that is no white space has a word.
proof fn lemma_words_nonempty(s: Seq<char>)
    requires
        s.len() > 0,
        !is_space(s.last()),
    ensures
        words(s).len() > 0,
    decreases s.len(),
{
    if s.len() >= 2 && !is_space(s[s.len() - 2]) {
        lemma_words_nonempty(s.drop_last());
    }
}

/// Where white space stands between two texts, or one of them is empty, the words of both
/// together are the words of the first followed by the words of the second.
pub proof fn lemma_words_append(s: Seq<char>, t: Seq<char>)
    requires
        s.len() == 0 || t.len() == 0 || is_space(s.last()) || is_space(t[0]),
    ensures
        words(s + t) == words(s) + words(t),
    decreases t.len(),
{
    if t.len() == 0 {
        assert(s + t =~= s);
        assert(words(s) + words(t) =~= words(s));
    } else {
        let t0 = t.drop_last();
        let c = t.last();
        assert((s + t).drop_last() =~= s + t0);
        assert((s + t).last() == c);
        if t0.len() > 0 {
            assert(t0[0] == t[0]);
        }
        lemma_words_append(s, t0);
        let a = words(s);
        let b = words(t0);
        if is_space(c) {
        } else if t.len() >= 2 && !is_space(t[t.len() - 2]) {
            assert((s + t)[(s + t).len() - 2] == t[t.len() - 2]);
            lemma_words_nonempty(t0);
            assert((a + b).update((a + b).len() - 1, (a + b).last().push(c)) =~= a + b.update(
                b.len() - 1,
                b.last().push(c),
            ));
        } else {
            if t.len() == 1 {
                if s.len() > 0 {
                    assert((s + t)[(s + t).len() - 2] == s.last());
                }
            } else {
                assert((s + t)[(s + t).len() - 2] == t[t.len() - 2]);
            }
            assert((a + b).push(seq![c]) =~= a + b.push(seq![c]));
        }
    }
}

/// Words joined with single spaces are the words of the text they make.
pub proof fn lemma_words_join(ws: Seq<Seq<char>>)
    requires
        forall|i: int| 0 <= i < ws.len() ==> is_word(#[trigger] ws[i]),
    ensures
        words(join_words(ws)) == ws,
    decreases ws.len(),
{
    if ws.len() == 0 {
    } else if ws.len() == 1 {
        lemma_words_single(ws[0]);
        assert(seq![ws[0]] =~= ws);
    } else {
        let front = ws.drop_last();
        assert(forall|i: int| 0 <= i < front.len() ==> front[i] == ws[i]);
        lemma_words_join(front);
        let j = join_words(front);
        assert(is_word(ws.last()));
        lemma_words_append(j, seq![' ']);
        lemma_words_append(j + seq![' '], ws.last());
        lemma_words_single(ws.last());
        assert(words(seq![' ']) =~= Seq::<Seq<char>>::empty()) by {
            let sp: Seq<char> = seq![' '];
            assert(sp.drop_last() =~= Seq::<char>::empty());
            assert(words(sp.drop_last()) =~= Seq::<Seq<char>>::empty());
            assert(is_space(sp.last()));
        }
        assert(front + Seq::<Seq<char>>::empty() + seq![ws.last()] =~= ws);
    }
}

/// Joining two non-empty lists of words puts a single space between their two texts.
pub proof fn lemma_join_append(a: Seq<Seq<char>>, b: Seq<Seq<char>>)
    requires
        a.len() > 0,
        b.len() > 0,
    ensures
        join_words(a + b) == join_words(a) + seq![' '] + join_words(b),
    decreases b.len(),
{
    assert((a + b).drop_last() =~= a + b.drop_last());
    assert((a + b).last() == b.last());
    if b.len() == 1 {
        assert(a + b.drop_last() =~= a);
    } else {
        let b0 = b.drop_last();
        lemma_join_append(a, b0);
        assert(join_words(a) + seq![' '] + join_words(b0) + seq![' '] + b.last() =~= join_words(a) + seq![' ']
            + (join_words(b0) + seq![' '] + b.last()));
    }
}

/// Two words joined: the first, a space, the second.
pub proof fn lemma_join_two(x: Seq<char>, y: Seq<char>)
    ensures
        join_words(seq![x, y]) == x + seq![' '] + y,
{
    let ws = seq![x, y];
    assert(ws.drop_last() =~= seq![x]);
    assert(join_words(ws.drop_last()) == x);
    assert(ws.last() == y);
    assert(join_words(ws) == join_words(ws.drop_last()) + seq![' '] + ws.last());
}

} // verus!
