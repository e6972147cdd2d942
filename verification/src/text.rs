//! Text helpers shared by the services: character access, decimal rendering,
//! line splitting and joining.
use vstd::prelude::*;

verus! {

/// Appends one character (std's `String::push`): the text grows by exactly `c`.
#[verifier::external_body]
pub(crate) fn push_char(s: &mut String, c: char)
    ensures
        final(s)@ == old(s)@.push(c),
{
    s.push(c);
}

/// The characters of a text, in order.
pub fn chars_of(s: &str) -> (res: Vec<char>)
    ensures
        res@ == s@,
{
    let mut v: Vec<char> = Vec::new();
    for c in it: s.chars()
        invariant
            v@ == it.seq().take(it.index() as int),
    {
        v.push(c);
    }
    v
}

/// Builds a text from `chars[start..end]`.
pub fn text_from_chars(chars: &Vec<char>, start: usize, end: usize) -> (res: String)
    requires
        start <= end <= chars.len(),
    ensures
        res@ == chars@.subrange(start as int, end as int),
{
    let mut s = String::new();
    let mut i = start;
    while i < end
        invariant
            start <= i <= end <= chars.len(),
            s@ == chars@.subrange(start as int, i as int),
        decreases end - i,
    {
        push_char(&mut s, chars[i]);
        i = i + 1;
    }
    s
}

/// Whether two texts hold the same characters.
pub fn text_eq(a: &str, b: &str) -> (res: bool)
    ensures
        res == (a@ == b@),
{
    let x = a.to_owned();
    let y = b.to_owned();
    x == y
}

/// Whether `prefix` starts `s`.
pub fn starts_with(s: &Vec<char>, prefix: &str) -> (res: bool)
    ensures
        res == prefix@.is_prefix_of(s@),
{
    let p = chars_of(prefix);
    if p.len() > s.len() {
        return false;
    }
    let mut i: usize = 0;
    while i < p.len()
        invariant
            p@ == prefix@,
            p.len() <= s.len(),
            i <= p.len(),
            forall|j: int| 0 <= j < i ==> p@[j] == s@[j],
        decreases p.len() - i,
    {
        if p[i] != s[i] {
            assert(!prefix@.is_prefix_of(s@)) by {
                if prefix@.is_prefix_of(s@) {
                    assert(s@.take(p.len() as int)[i as int] == s@[i as int]);
                }
            }
            return false;
        }
        i = i + 1;
    }
    assert(s@.take(p.len() as int) =~= p@);
    true
}

/// The character of a decimal digit.
pub open spec fn digit_char(d: nat) -> char {
    if d == 0 { '0' }
    else if d == 1 { '1' }
    else if d == 2 { '2' }
    else if d == 3 { '3' }
    else if d == 4 { '4' }
    else if d == 5 { '5' }
    else if d == 6 { '6' }
    else if d == 7 { '7' }
    else if d == 8 { '8' }
    else { '9' }
}

/// The decimal digits of `n`, most significant first, without leading zeros.
pub open spec fn decimal(n: nat) -> Seq<char>
    decreases n,
{
    if n < 10 {
        seq![digit_char(n)]
    } else {
        decimal(n / 10).push(digit_char(n % 10))
    }
}

/// `s` preceded by enough zeros to be at least `width` characters long.
pub open spec fn zero_padded(s: Seq<char>, width: nat) -> Seq<char> {
    if s.len() >= width {
        s
    } else {
        Seq::new((width - s.len()) as nat, |i: int| '0') + s
    }
}

/// Decimal rendering of a signed number with sign-aware zero padding to
/// `width` characters (the `{:0width}` format).
pub open spec fn padded_decimal(n: int, width: nat) -> Seq<char> {
    if n >= 0 {
        zero_padded(decimal(n as nat), width)
    } else {
        seq!['-'] + zero_padded(decimal((-n) as nat), if width >= 1 { (width - 1) as nat } else { 0 })
    }
}

fn digit_of(d: u64) -> (c: char)
    requires
        d < 10,
    ensures
        c == digit_char(d as nat),
{
    if d == 0 { '0' }
    else if d == 1 { '1' }
    else if d == 2 { '2' }
    else if d == 3 { '3' }
    else if d == 4 { '4' }
    else if d == 5 { '5' }
    else if d == 6 { '6' }
    else if d == 7 { '7' }
    else if d == 8 { '8' }
    else { '9' }
}

/// Appends the decimal digits of `n`.
pub fn push_decimal(s: &mut String, n: u64)
    ensures
        final(s)@ == old(s)@ + decimal(n as nat),
    decreases n,
{
    if n < 10 {
        push_char(s, digit_of(n));
    } else {
        push_decimal(s, n / 10);
        push_char(s, digit_of(n % 10));
    }
}

/// Appends `n` rendered with `{:0width}`.
pub fn push_padded(s: &mut String, n: i64, width: u64)
    ensures
        final(s)@ == old(s)@ + padded_decimal(n as int, width as nat),
{
    let ghost start = s@;
    let mag: u64 = if n >= 0 { n as u64 } else { (0i128 - n as i128) as u64 };
    let w: u64 = if n >= 0 { width } else if width >= 1 { width - 1 } else { 0 };
    if n < 0 {
        push_char(s, '-');
    }
    let ghost before = s@;
    let mut digits = String::new();
    push_decimal(&mut digits, mag);
    let len = chars_of(digits.as_str()).len() as u64;
    let mut k: u64 = len;
    while k < w
        invariant
            len <= k <= w || (w < len && k == len),
            s@ == before + Seq::new((k - len) as nat, |i: int| '0'),
        decreases w - k,
    {
        push_char(s, '0');
        k = k + 1;
        proof {
            assert(s@ =~= before + Seq::new((k - len) as nat, |i: int| '0'));
        }
    }
    s.append(digits.as_str());
    proof {
        let d = decimal(mag as nat);
        if len >= w {
            assert(s@ =~= before + d);
        } else {
            assert(Seq::new((w - len) as nat, |i: int| '0') + d == zero_padded(d, w as nat));
        }
        if n >= 0 {
            assert(s@ =~= start + padded_decimal(n as int, width as nat));
        } else {
            assert(s@ =~= start + padded_decimal(n as int, width as nat));
        }
    }
}

} // verus!

verus! {

/// Splits at every `'\n'`: the pieces between newlines, always at least one
/// (the text after the last newline, possibly empty).
pub open spec fn newline_pieces(s: Seq<char>) -> Seq<Seq<char>>
    decreases s.len(),
{
    if s.len() == 0 {
        seq![Seq::<char>::empty()]
    } else {
        let r = newline_pieces(s.drop_last());
        if s.last() == '\n' {
            r.push(Seq::<char>::empty())
        } else {
            r.update(r.len() - 1, r.last().push(s.last()))
        }
    }
}

/// A line that ended with `"\r\n"` loses its carriage return.
pub open spec fn without_cr(line: Seq<char>) -> Seq<char> {
    if line.len() > 0 && line.last() == '\r' {
        line.drop_last()
    } else {
        line
    }
}

/// The lines of a text as std's `str::lines` yields them: split at `'\n'` or
/// `"\r\n"`, with no empty line after a final line ending.
pub open spec fn lines(s: Seq<char>) -> Seq<Seq<char>> {
    let pieces = newline_pieces(s);
    let ended = pieces.drop_last().map_values(|l: Seq<char>| without_cr(l));
    if pieces.last().len() > 0 {
        ended.push(pieces.last())
    } else {
        ended
    }
}

/// The views of a sequence of texts.
pub open spec fn texts(v: Seq<String>) -> Seq<Seq<char>> {
    v.map_values(|s: String| s@)
}

proof fn lemma_pieces_nonempty(s: Seq<char>)
    ensures
        newline_pieces(s).len() >= 1,
    decreases s.len(),
{
    if s.len() > 0 {
        lemma_pieces_nonempty(s.drop_last());
    }
}

/// Splits a text into its lines, as `str::lines` does.
pub fn split_lines(text: &str) -> (res: Vec<String>)
    ensures
        texts(res@) == lines(text@),
{
    let chars = chars_of(text);
    let mut done: Vec<String> = Vec::new();
    let mut cur: Vec<char> = Vec::new();
    let mut i: usize = 0;
    proof {
        assert(chars@.take(0) =~= Seq::<char>::empty());
    }
    while i < chars.len()
        invariant
            chars@ == text@,
            i <= chars.len(),
            newline_pieces(chars@.take(i as int)).len() >= 1,
            texts(done@) == newline_pieces(chars@.take(i as int)).drop_last().map_values(
                |l: Seq<char>| without_cr(l),
            ),
            cur@ == newline_pieces(chars@.take(i as int)).last(),
        decreases chars.len() - i,
    {
        let c = chars[i];
        let ghost prev = chars@.take(i as int);
        proof {
            assert(chars@.take(i + 1).drop_last() =~= prev);
            lemma_pieces_nonempty(prev);
        }
        if c == '\n' {
            let n = cur.len();
            let line = if n > 0 && cur[n - 1] == '\r' {
                text_from_chars(&cur, 0, n - 1)
            } else {
                text_from_chars(&cur, 0, n)
            };
            proof {
                assert(cur@.subrange(0, n as int) =~= cur@);
                if n > 0 {
                    assert(cur@.subrange(0, n - 1) =~= cur@.drop_last());
                }
            }
            let ghost old_done = done@;
            assert(line@ == without_cr(cur@));
            done.push(line);
            cur = Vec::new();
            proof {
                assert(texts(done@) =~= texts(old_done).push(line@));
                let p = newline_pieces(prev);
                let q = newline_pieces(chars@.take(i + 1));
                assert(q == p.push(Seq::<char>::empty()));
                assert(q.drop_last() =~= p);
                assert(p =~= p.drop_last().push(p.last()));
                assert(p.map_values(|l: Seq<char>| without_cr(l)) =~= p.drop_last().map_values(
                    |l: Seq<char>| without_cr(l),
                ).push(without_cr(p.last())));
                assert(texts(done@) =~= q.drop_last().map_values(|l: Seq<char>| without_cr(l)));
            }
        } else {
            cur.push(c);
            proof {
                let p = newline_pieces(prev);
                let q = newline_pieces(chars@.take(i + 1));
                assert(q.drop_last() =~= p.drop_last());
            }
        }
        i = i + 1;
    }
    proof {
        assert(chars@.take(chars.len() as int) =~= chars@);
    }
    if cur.len() > 0 {
        let n = cur.len();
        let last = text_from_chars(&cur, 0, n);
        proof {
            assert(cur@.subrange(0, n as int) =~= cur@);
        }
        done.push(last);
        proof {
            assert(texts(done@) =~= lines(text@));
        }
    } else {
        proof {
            assert(texts(done@) =~= lines(text@));
        }
    }
    done
}

/// Texts joined with a separator between neighbours.
pub open spec fn joined(parts: Seq<Seq<char>>, sep: Seq<char>) -> Seq<char>
    decreases parts.len(),
{
    if parts.len() == 0 {
        Seq::empty()
    } else if parts.len() == 1 {
        parts[0]
    } else {
        joined(parts.drop_last(), sep) + sep + parts.last()
    }
}

/// Joins texts with `sep` between neighbours, as `[String]::join` does.
pub fn join_texts(parts: &Vec<String>, sep: &str) -> (res: String)
    ensures
        res@ == joined(texts(parts@), sep@),
{
    let mut res = String::new();
    let mut i: usize = 0;
    while i < parts.len()
        invariant
            i <= parts.len(),
            res@ == joined(texts(parts@).take(i as int), sep@),
        decreases parts.len() - i,
    {
        let ghost before = texts(parts@).take(i as int);
        proof {
            assert(texts(parts@).take(i + 1).drop_last() =~= before);
        }
        if i > 0 {
            res.append(sep);
        }
        res.append(parts[i].as_str());
        proof {
            if i == 0 {
                assert(res@ =~= texts(parts@).take(1)[0]);
            }
        }
        i = i + 1;
    }
    proof {
        assert(texts(parts@).take(parts.len() as int) =~= texts(parts@));
    }
    res
}

} // verus!
