//! Character-level helpers shared by the data and protocol code: decimal
//! numbers, line splitting the way `str::lines` does it, joining with `\n`,
//! and order-preserving removal of duplicates.
use vstd::prelude::*;

verus! {

/// The character of a decimal digit `d` (`0 <= d < 10`).
pub open spec fn digit_char(d: nat) -> char {
    if d == 0 {
        '0'
    } else if d == 1 {
        '1'
    } else if d == 2 {
        '2'
    } else if d == 3 {
        '3'
    } else if d == 4 {
        '4'
    } else if d == 5 {
        '5'
    } else if d == 6 {
        '6'
    } else if d == 7 {
        '7'
    } else if d == 8 {
        '8'
    } else {
        '9'
    }
}

/// The shortest decimal spelling of `n`, as `format!("{}", n)` writes it.
pub open spec fn decimal(n: nat) -> Seq<char>
    decreases n,
{
    if n < 10 {
        seq![digit_char(n)]
    } else {
        decimal(n / 10).push(digit_char(n % 10))
    }
}

/// Whether a byte is an ASCII decimal digit.
pub open spec fn is_digit_byte(b: u8) -> bool {
    48 <= b <= 57
}

/// The number that a sequence of ASCII digits spells, most significant first.
pub open spec fn digits_value(b: Seq<u8>) -> nat
    decreases b.len(),
{
    if b.len() == 0 {
        0
    } else {
        digits_value(b.drop_last()) * 10 + (b.last() - 48) as nat
    }
}

/// The digits part of an unsigned number: without one leading `+`.
pub open spec fn unsigned_digits(b: Seq<u8>) -> Seq<u8> {
    if b.len() > 0 && b[0] == 43 {
        b.skip(1)
    } else {
        b
    }
}

/// Whether every byte is an ASCII digit.
pub open spec fn all_digits(d: Seq<u8>) -> bool {
    forall|i: int| 0 <= i < d.len() ==> is_digit_byte(#[trigger] d[i])
}

/// What `u64::from_str` gives for the bytes `b`: an optional leading `+`,
/// then at least one ASCII digit, and a value that fits in 64 bits.
pub open spec fn parse_u64(b: Seq<u8>) -> Option<u64> {
    let d = unsigned_digits(b);
    if d.len() > 0 && all_digits(d) && digits_value(d) <= u64::MAX {
        Some(digits_value(d) as u64)
    } else {
        None
    }
}

/// Drops one `\r` at the end of a line, if there is one.
pub open spec fn strip_cr(line: Seq<char>) -> Seq<char> {
    if line.len() > 0 && line.last() == '\r' {
        line.drop_last()
    } else {
        line
    }
}

/// Scanning `s` from the front: the lines finished so far (each ended by
/// `\n`, with one `\r` before it removed) and the line still open.
pub open spec fn scan_lines(s: Seq<char>) -> (Seq<Seq<char>>, Seq<char>)
    decreases s.len(),
{
    if s.len() == 0 {
        (seq![], seq![])
    } else {
        let prev = scan_lines(s.drop_last());
        if s.last() == '\n' {
            (prev.0.push(strip_cr(prev.1)), seq![])
        } else {
            (prev.0, prev.1.push(s.last()))
        }
    }
}

/// The lines of `s` as `str::lines` yields them: split at `\n`, a `\r`
/// right before a `\n` dropped, and no empty line after a final `\n`.
pub open spec fn lines(s: Seq<char>) -> Seq<Seq<char>> {
    let scanned = scan_lines(s);
    if scanned.1.len() > 0 {
        scanned.0.push(scanned.1)
    } else {
        scanned.0
    }
}

/// The lines joined with `\n` between them, as `[..].join("\n")` does.
pub open spec fn join_lines(ls: Seq<Seq<char>>) -> Seq<char>
    decreases ls.len(),
{
    if ls.len() == 0 {
        seq![]
    } else if ls.len() == 1 {
        ls[0]
    } else {
        join_lines(ls.drop_last()) + seq!['\n'] + ls.last()
    }
}

/// The first occurrence of each element of `s`, in order.
pub open spec fn dedup<A>(s: Seq<A>) -> Seq<A>
    decreases s.len(),
{
    if s.len() == 0 {
        s
    } else {
        let rest = dedup(s.drop_last());
        if rest.contains(s.last()) {
            rest
        } else {
            rest.push(s.last())
        }
    }
}

/// The views of a vector of strings.
pub open spec fn string_views(v: Seq<String>) -> Seq<Seq<char>> {
    v.map_values(|x: String| x@)
}

/// Appends one character; `String::push`.
#[verifier::external_body]
pub(crate) fn push_char(s: &mut String, c: char)
    ensures
        final(s)@ == old(s)@.push(c),
{
    s.push(c);
}

/// The bytes from position `start` on; `&b[start..]`.
#[verifier::external_body]
pub(crate) fn slice_from(b: &[u8], start: usize) -> (r: &[u8])
    requires
        start <= b@.len(),
    ensures
        r@ == b@.skip(start as int),
{
    &b[start..]
}

/// Removes the last character; `String::pop`.
#[verifier::external_body]
pub(crate) fn pop_char(s: &mut String) -> (r: Option<char>)
    ensures
        old(s)@.len() == 0 ==> r is None && final(s)@ == old(s)@,
        old(s)@.len() > 0 ==> r == Some(old(s)@.last()) && final(s)@ == old(s)@.drop_last(),
{
    s.pop()
}

/// The character of the decimal digit `d`.
pub fn digit_to_char(d: u8) -> (c: char)
    requires
        d < 10,
    ensures
        c == digit_char(d as nat),
{
    if d == 0 {
        '0'
    } else if d == 1 {
        '1'
    } else if d == 2 {
        '2'
    } else if d == 3 {
        '3'
    } else if d == 4 {
        '4'
    } else if d == 5 {
        '5'
    } else if d == 6 {
        '6'
    } else if d == 7 {
        '7'
    } else if d == 8 {
        '8'
    } else {
        '9'
    }
}

/// Appends the decimal spelling of `n` to `out`.
pub fn push_decimal(out: &mut String, n: u64)
    ensures
        final(out)@ == old(out)@ + decimal(n as nat),
{
    let mut digits: Vec<char> = Vec::new();
    let mut rest: u64 = n;
    // digits holds the spelling of n % 10^k reversed, rest == n / 10^k
    while rest >= 10
        invariant
            decimal(n as nat) == decimal(rest as nat) + digits@.reverse(),
        decreases rest,
    {
        let d = (rest % 10) as u8;
        let c = digit_to_char(d);
        proof {
            assert(decimal(rest as nat) == decimal((rest / 10) as nat).push(digit_char(
                (rest % 10) as nat,
            )));
            assert(digits@.push(c).reverse() =~= seq![c] + digits@.reverse());
            assert(decimal((rest / 10) as nat) + seq![c] + digits@.reverse() =~= decimal(
                (rest / 10) as nat,
            ) + digits@.push(c).reverse());
        }
        digits.push(c);
        rest = rest / 10;
    }
    let c = digit_to_char(rest as u8);
    push_char(out, c);
    assert(decimal(rest as nat) == seq![c]);
    let mut j = digits.len();
    while j > 0
        invariant
            j <= digits@.len(),
            decimal(n as nat) == seq![c] + digits@.reverse(),
            out@ == old(out)@ + seq![c] + digits@.reverse().take(
                (digits@.len() - j) as int,
            ),
        decreases j,
    {
        j = j - 1;
        let ch = digits[j];
        push_char(out, ch);
        proof {
            let rv = digits@.reverse();
            assert(rv[(digits@.len() - 1 - j) as int] == ch);
            assert(rv.take((digits@.len() - j) as int) =~= rv.take(
                (digits@.len() - 1 - j) as int,
            ).push(ch));
        }
    }
    assert(digits@.reverse().take(digits@.len() as int) =~= digits@.reverse());
}

/// Lemma: the decimal spelling of a number consists of digits only.
pub proof fn lemma_decimal_digits(n: nat)
    ensures
        decimal(n).len() > 0,
        forall|i: int| 0 <= i < decimal(n).len() ==> 48 <= (#[trigger] decimal(n)[i]) as u32 <= 57,
        forall|i: int| 0 <= i < decimal(n).len() ==> '0' <= (#[trigger] decimal(n)[i]) <= '9',
    decreases n,
{
    if n >= 10 {
        lemma_decimal_digits(n / 10);
    }
}

/// The bytes of a sequence of ASCII characters.
pub open spec fn ascii_bytes(s: Seq<char>) -> Seq<u8> {
    s.map_values(|c: char| c as u8)
}

/// Lemma: the byte of a digit character.
pub proof fn lemma_digit_char_byte(d: nat)
    requires
        d < 10,
    ensures
        digit_char(d) as u8 == 48 + d,
        is_digit_byte(digit_char(d) as u8),
{
}

/// Lemma: reading back the digits of `decimal(n)` gives `n`.
pub proof fn lemma_digits_value_decimal(n: nat)
    ensures
        digits_value(ascii_bytes(decimal(n))) == n,
        forall|i: int|
            0 <= i < ascii_bytes(decimal(n)).len() ==> is_digit_byte(
                #[trigger] ascii_bytes(decimal(n))[i],
            ),
        ascii_bytes(decimal(n)).len() > 0,
    decreases n,
{
    lemma_decimal_digits(n);
    lemma_digit_char_byte(n % 10);
    let b = ascii_bytes(decimal(n));
    assert(decimal(n).last() == digit_char(n % 10));
    assert(b.last() == digit_char(n % 10) as u8);
    if n < 10 {
        assert(b.drop_last() =~= seq![]);
        assert(b.len() == 1);
        assert(digits_value(b.drop_last()) == 0);
        assert(digits_value(b) == digits_value(b.drop_last()) * 10 + (b.last() - 48) as nat);
    } else {
        lemma_digits_value_decimal(n / 10);
        assert(b.drop_last() =~= ascii_bytes(decimal(n / 10)));
        assert(digits_value(b) == digits_value(b.drop_last()) * 10 + (b.last() - 48) as nat);
        assert(digits_value(b) == (n / 10) * 10 + n % 10);
        assert forall|i: int| 0 <= i < b.len() implies is_digit_byte(#[trigger] b[i]) by {
            if i < b.len() - 1 {
                assert(b[i] == b.drop_last()[i]);
            }
        }
    }
}

/// Splits `s` into its lines, as `s.lines()` yields them.
pub fn split_lines(s: &str) -> (r: Vec<String>)
    ensures
        string_views(r@) == lines(s@),
{
    let mut done: Vec<String> = Vec::new();
    let mut cur = String::new();
    let ghost mut seen: Seq<char> = seq![];
    for c in it: s.chars()
        invariant
            it.seq() == s@,
            seen == it.seq().take(it.index() as int),
            (string_views(done@), cur@) == scan_lines(seen),
    {
        let ghost next = seen.push(c);
        proof {
            assert(next.drop_last() =~= seen);
        }
        if c == '\n' {
            let mut line = cur;
            let last = pop_char(&mut line);
            match last {
                Some(ch) => {
                    if ch != '\r' {
                        push_char(&mut line, ch);
                        assert(line@ =~= cur@);
                    }
                },
                None => {},
            }
            done.push(line);
            cur = String::new();
            assert(string_views(done@) =~= scan_lines(seen).0.push(strip_cr(scan_lines(seen).1)));
        } else {
            push_char(&mut cur, c);
            assert(string_views(done@) =~= scan_lines(seen).0);
        }
        assert((string_views(done@), cur@) == scan_lines(next));
        proof {
            seen = next;
        }
    }
    assert(seen =~= s@);
    assert(scan_lines(s@) == (string_views(done@), cur@));
    if !cur.as_str().is_empty() {
        done.push(cur);
        assert(string_views(done@) =~= lines(s@));
    }
    done
}

/// Joins the strings with `\n` between them.
pub fn join_with_newlines(ls: &Vec<String>) -> (r: String)
    ensures
        r@ == join_lines(string_views(ls@)),
{
    let mut out = String::new();
    let mut i: usize = 0;
    while i < ls.len()
        invariant
            i <= ls@.len(),
            out@ == join_lines(string_views(ls@).take(i as int)),
        decreases ls@.len() - i,
    {
        let ghost before = string_views(ls@).take(i as int);
        proof {
            assert(string_views(ls@).take(i + 1).drop_last() =~= before);
        }
        if i > 0 {
            push_char(&mut out, '\n');
        } else {
            assert(string_views(ls@).take(1) =~= seq![ls@[0]@]);
        }
        out.append(ls[i].as_str());
        assert(out@ =~= join_lines(string_views(ls@).take(i + 1)));
        i = i + 1;
    }
    assert(string_views(ls@).take(ls@.len() as int) =~= string_views(ls@));
    out
}

/// Whether one of the strings equals `s`.
pub fn contains_string(v: &Vec<String>, s: &String) -> (r: bool)
    ensures
        r == string_views(v@).contains(s@),
{
    let mut i: usize = 0;
    while i < v.len()
        invariant
            i <= v@.len(),
            forall|k: int| 0 <= k < i ==> v@[k]@ != s@,
        decreases v@.len() - i,
    {
        if v[i] == *s {
            assert(string_views(v@)[i as int] == s@);
            return true;
        }
        i = i + 1;
    }
    assert forall|k: int| 0 <= k < string_views(v@).len() implies string_views(v@)[k] != s@ by {}
    false
}

} // verus!
