//! Text forms of numbers and of IPv4 and IPv6 addresses.

use vstd::prelude::*;
use vstd::std_specs::iter::IteratorSpec;

verus! {

/// `String::push` of the standard library, taken on trust: after the call the
/// string holds the characters it held before, followed by `c`.
pub assume_specification[ String::push ](s: &mut String, c: char)
    ensures
        final(s)@ == old(s)@.push(c),
;

/// The texts of a sequence of strings.
pub open spec fn texts(strings: Seq<String>) -> Seq<Seq<char>> {
    strings.map_values(|s: String| s@)
}

/// The characters of a text, in order.
pub fn chars_of(text: &str) -> (chars: Vec<char>)
    ensures
        chars@ == text@,
{
    broadcast use vstd::string::group_string_axioms;

    let mut chars: Vec<char> = Vec::new();
    let mut rest = text.chars();
    assert(chars@ + rest.remaining() =~= text@);
    loop
        invariant
            chars@ + rest.remaining() == text@,
            rest.obeys_prophetic_iter_laws(),
            rest.decrease() is Some,
        decreases rest.decrease()->0,
    {
        let ghost before = rest.remaining();
        match rest.next() {
            Some(c) => {
                chars.push(c);
                assert(chars@ + rest.remaining() =~= text@);
            },
            None => {
                assert(chars@ =~= text@);
                return chars;
            },
        }
    }
}

/// The character that writes the digit `d` in bases up to sixteen, in lower case.
pub open spec fn digit_char(d: nat) -> char {
    if d == 0 {
        '0'
    } else if d == 1 {
        '1'
    } else if d == 2 {
        '2'
    } else if d == 3 {
        '3'
    } else if d == 4 {
        '4'
    } else if d == 5 {
        '5'
    } else if d == 6 {
        '6'
    } else if d == 7 {
        '7'
    } else if d == 8 {
        '8'
    } else if d == 9 {
        '9'
    } else if d == 10 {
        'a'
    } else if d == 11 {
        'b'
    } else if d == 12 {
        'c'
    } else if d == 13 {
        'd'
    } else if d == 14 {
        'e'
    } else {
        'f'
    }
}

/// The value of a digit character, the inverse of `digit_char` below sixteen.
pub open spec fn digit_value(c: char) -> nat {
    if c == '0' {
        0
    } else if c == '1' {
        1
    } else if c == '2' {
        2
    } else if c == '3' {
        3
    } else if c == '4' {
        4
    } else if c == '5' {
        5
    } else if c == '6' {
        6
    } else if c == '7' {
        7
    } else if c == '8' {
        8
    } else if c == '9' {
        9
    } else if c == 'a' {
        10
    } else if c == 'b' {
        11
    } else if c == 'c' {
        12
    } else if c == 'd' {
        13
    } else if c == 'e' {
        14
    } else {
        15
    }
}

/// Dividing a number by a base of at least two that does not exceed it gives a
/// smaller, positive number.
pub proof fn lemma_quotient_smaller(n: nat, base: nat)
    by (nonlinear_arith)
    requires
        2 <= base <= n,
    ensures
        0 < n / base < n,
        n == (n / base) * base + n % base,
        n % base < base,
{
}

/// `n` written in positional notation in the given base, most significant
/// digit first, without leading zeros; zero is written as the single digit `0`.
pub open spec fn numeral(n: nat, base: nat) -> Seq<char>
    decreases n,
{
    if base < 2 || n < base {
        seq![digit_char(n)]
    } else {
        proof {
            lemma_quotient_smaller(n, base);
        }
        numeral(n / base, base).push(digit_char(n % base))
    }
}

/// The number that a sequence of digits denotes in the given base.
pub open spec fn numeral_value(digits: Seq<char>, base: nat) -> nat
    decreases digits.len(),
{
    if digits.len() == 0 {
        0
    } else {
        numeral_value(digits.drop_last(), base) * base + digit_value(digits.last())
    }
}

/// `n` in decimal.
pub open spec fn decimal(n: nat) -> Seq<char> {
    numeral(n, 10)
}

/// `n` in lower-case hexadecimal.
pub open spec fn hex(n: nat) -> Seq<char> {
    numeral(n, 16)
}

/// Reading a numeral back gives the number it was written from, and a numeral
/// of more than one digit does not start with `0`.
pub proof fn lemma_numeral_reads_back(n: nat, base: nat)
    requires
        2 <= base <= 16,
    ensures
        numeral_value(numeral(n, base), base) == n,
        numeral(n, base).len() >= 1,
        numeral(n, base).len() > 1 ==> numeral(n, base)[0] != '0',
        n > 0 ==> numeral(n, base)[0] != '0',
    decreases n,
{
    let s = numeral(n, base);
    if n < base {
        assert(s =~= seq![digit_char(n)]);
        assert(s.drop_last() =~= Seq::<char>::empty());
        assert(numeral_value(s.drop_last(), base) == 0);
        assert(digit_value(digit_char(n)) == n);
        assert(numeral_value(s, base) == 0 * base + n);
    } else {
        let q = n / base;
        let r = n % base;
        lemma_quotient_smaller(n, base);
        lemma_numeral_reads_back(q, base);
        assert(s == numeral(q, base).push(digit_char(r)));
        assert(s.drop_last() =~= numeral(q, base));
        assert(s.last() == digit_char(r));
        assert(digit_value(digit_char(r)) == r);
        assert(numeral_value(s, base) == numeral_value(s.drop_last(), base) * base + digit_value(
            s.last(),
        ));
        assert(numeral_value(s, base) == q * base + r);
        assert(s[0] == numeral(q, base)[0]);
    }
}

/// The digit character for `d`.
pub fn digit(d: u8) -> (c: char)
    ensures
        c == digit_char(d as nat),
{
    if d == 0 {
        '0'
    } else if d == 1 {
        '1'
    } else if d == 2 {
        '2'
    } else if d == 3 {
        '3'
    } else if d == 4 {
        '4'
    } else if d == 5 {
        '5'
    } else if d == 6 {
        '6'
    } else if d == 7 {
        '7'
    } else if d == 8 {
        '8'
    } else if d == 9 {
        '9'
    } else if d == 10 {
        'a'
    } else if d == 11 {
        'b'
    } else if d == 12 {
        'c'
    } else if d == 13 {
        'd'
    } else if d == 14 {
        'e'
    } else {
        'f'
    }
}

/// Appends `n` in decimal to `out`.
pub fn push_decimal(out: &mut String, n: u16)
    ensures
        final(out)@ == old(out)@ + decimal(n as nat),
{
    push_numeral(out, n, 10);
}

/// Appends `n` in lower-case hexadecimal to `out`.
pub fn push_hex(out: &mut String, n: u16)
    ensures
        final(out)@ == old(out)@ + hex(n as nat),
{
    push_numeral(out, n, 16);
}

/// Appends `n`, written in the given base, to `out`.
pub(crate) fn push_numeral(out: &mut String, n: u16, base: u16)
    requires
        2 <= base <= 16,
    ensures
        final(out)@ == old(out)@ + numeral(n as nat, base as nat),
    decreases n,
{
    if n >= base {
        proof {
            lemma_quotient_smaller(n as nat, base as nat);
        }
        push_numeral(out, n / base, base);
    }
    let d: u16 = n % base;
    out.push(digit(d as u8));
    proof {
        let text = numeral(n as nat, base as nat);
        if n >= base {
            assert(text == numeral((n / base) as nat, base as nat).push(
                digit_char((n % base) as nat),
            ));
            assert(out@ =~= old(out)@ + text);
        } else {
            vstd::arithmetic::div_mod::lemma_small_mod(n as nat, base as nat);
            assert(text =~= seq![digit_char(n as nat)]);
            assert(out@ =~= old(out)@ + text);
        }
    }
}

/// The dotted-decimal text of the IPv4 address with octets `a`, `b`, `c`, `d`.
pub open spec fn ipv4_text(a: u8, b: u8, c: u8, d: u8) -> Seq<char> {
    decimal(a as nat) + seq!['.'] + decimal(b as nat) + seq!['.'] + decimal(c as nat) + seq!['.']
        + decimal(d as nat)
}

/// Appends the dotted-decimal text of an IPv4 address to `out`.
pub fn push_ipv4(out: &mut String, a: u8, b: u8, c: u8, d: u8)
    ensures
        final(out)@ == old(out)@ + ipv4_text(a, b, c, d),
{
    push_numeral(out, a as u16, 10);
    out.push('.');
    push_numeral(out, b as u16, 10);
    out.push('.');
    push_numeral(out, c as u16, 10);
    out.push('.');
    push_numeral(out, d as u16, 10);
    assert(out@ =~= old(out)@ + ipv4_text(a, b, c, d));
}

/// The dotted-decimal text of an IPv4 address.
pub fn ipv4_to_string(a: u8, b: u8, c: u8, d: u8) -> (s: String)
    ensures
        s@ == ipv4_text(a, b, c, d),
{
    let mut s = String::new();
    push_ipv4(&mut s, a, b, c, d);
    assert(s@ =~= ipv4_text(a, b, c, d));
    s
}

/// Hexadecimal groups joined by single colons; nothing for no group.
pub open spec fn groups_text(g: Seq<u16>) -> Seq<char>
    decreases g.len(),
{
    if g.len() == 0 {
        Seq::empty()
    } else if g.len() == 1 {
        hex(g[0] as nat)
    } else {
        groups_text(g.drop_last()) + seq![':'] + hex(g.last() as nat)
    }
}

/// The `len` groups of `g` from index `start` on exist and are all zero.
pub open spec fn zero_run(g: Seq<u16>, start: int, len: int) -> bool {
    &&& 0 <= start
    &&& 0 <= len
    &&& start + len <= g.len()
    &&& forall|i: int| start <= i < start + len ==> g[i] == 0
}

/// `(start, len)` is the longest run of zero groups in `g`, and the leftmost
/// of that length; where `g` has no zero group it is the empty run at 0.
pub open spec fn longest_zero_run(g: Seq<u16>, start: int, len: int) -> bool {
    &&& zero_run(g, start, len)
    &&& forall|s: int, l: int| #[trigger] zero_run(g, s, l) ==> l <= len
    &&& forall|s: int| #[trigger] zero_run(g, s, len) ==> start <= s
}

/// A sequence of groups has one longest leftmost run of zeros.
pub proof fn lemma_longest_zero_run_unique(g: Seq<u16>, s1: int, l1: int, s2: int, l2: int)
    requires
        longest_zero_run(g, s1, l1),
        longest_zero_run(g, s2, l2),
    ensures
        s1 == s2,
        l1 == l2,
{
    assert(zero_run(g, s1, l1));
    assert(zero_run(g, s2, l2));
    assert(l1 == l2);
    assert(zero_run(g, s2, l1));
    assert(zero_run(g, s1, l2));
}

/// The run of zero groups that the compressed text leaves out, as start and length.
pub open spec fn elided_run(g: Seq<u16>) -> (int, int) {
    choose|p: (int, int)| longest_zero_run(g, p.0, p.1)
}

/// The groups stand for an IPv4 address mapped into IPv6: five zero groups,
/// then `ffff`, then the four octets.
pub open spec fn is_ipv4_mapped(g: Seq<u16>) -> bool {
    &&& g.len() == 8
    &&& g[0] == 0
    &&& g[1] == 0
    &&& g[2] == 0
    &&& g[3] == 0
    &&& g[4] == 0
    &&& g[5] == 0xffff
}

/// The text of the eight groups where the run `(start, len)` is the one to
/// leave out: groups in hexadecimal without leading zeros, joined by colons,
/// with a run of two or more zero groups replaced by `::`.
pub open spec fn compressed_text(g: Seq<u16>, start: int, len: int) -> Seq<char> {
    if len >= 2 {
        groups_text(g.subrange(0, start)) + seq![':', ':'] + groups_text(
            g.subrange(start + len, g.len() as int),
        )
    } else {
        groups_text(g)
    }
}

/// The canonical text of the IPv6 address with the eight groups `g`. An
/// IPv4-mapped address is written as `::ffff:` and the dotted IPv4 address.
pub open spec fn ipv6_text(g: Seq<u16>) -> Seq<char> {
    if is_ipv4_mapped(g) {
        seq![':', ':', 'f', 'f', 'f', 'f', ':'] + ipv4_text(
            (g[6] / 256) as u8,
            (g[6] % 256) as u8,
            (g[7] / 256) as u8,
            (g[7] % 256) as u8,
        )
    } else {
        compressed_text(g, elided_run(g).0, elided_run(g).1)
    }
}

/// Appends the groups `g[from..to]` in hexadecimal, joined by colons.
fn push_groups(out: &mut String, g: &[u16; 8], from: usize, to: usize)
    requires
        from <= to <= 8,
    ensures
        final(out)@ == old(out)@ + groups_text(g@.subrange(from as int, to as int)),
{
    let mut i: usize = from;
    assert(g@.subrange(from as int, from as int) =~= Seq::<u16>::empty());
    assert(out@ =~= old(out)@ + groups_text(g@.subrange(from as int, i as int)));
    while i < to
        invariant
            from <= i <= to <= 8,
            g@.len() == 8,
            out@ == old(out)@ + groups_text(g@.subrange(from as int, i as int)),
        decreases to - i,
    {
        let ghost before = g@.subrange(from as int, i as int);
        let ghost after = g@.subrange(from as int, i as int + 1);
        if i > from {
            out.push(':');
        }
        push_numeral(out, g[i], 16);
        proof {
            assert(after.drop_last() =~= before);
            assert(after.last() == g@[i as int]);
            assert(out@ =~= old(out)@ + groups_text(after));
        }
        i = i + 1;
    }
}

/// Finds the longest run of zero groups, the leftmost where several are longest.
pub fn find_longest_zero_run(g: &[u16; 8]) -> (run: (usize, usize))
    ensures
        longest_zero_run(g@, run.0 as int, run.1 as int),
{
    let mut best_start: usize = 0;
    let mut best_len: usize = 0;
    let mut cur_len: usize = 0;
    let mut i: usize = 0;
    while i < 8
        invariant
            i <= 8,
            g@.len() == 8,
            cur_len <= i,
            zero_run(g@, i - cur_len, cur_len as int),
            cur_len < i ==> g@[i - cur_len - 1] != 0,
            best_start + best_len <= i,
            cur_len <= best_len,
            zero_run(g@, best_start as int, best_len as int),
            forall|s: int, l: int| #[trigger] zero_run(g@, s, l) && s + l <= i ==> l <= best_len,
            forall|s: int| #[trigger]
                zero_run(g@, s, best_len as int) && s + best_len <= i ==> best_start <= s,
        decreases 8 - i,
    {
        let ghost old_best_len = best_len;
        let ghost old_cur = cur_len;
        if g[i] == 0 {
            cur_len = cur_len + 1;
            if cur_len > best_len {
                best_start = i + 1 - cur_len;
                best_len = cur_len;
            }
        } else {
            cur_len = 0;
        }
        proof {
            let n = i as int + 1;
            assert forall|s: int, l: int| #[trigger] zero_run(g@, s, l) && s + l <= n implies l
                <= best_len by {
                if s + l <= i {
                    assert(zero_run(g@, s, l));
                } else if l > 0 {
                    // the run ends at index i, so it lies inside the current run
                    assert(g@[i as int] == 0);
                    if l > old_cur + 1 {
                        assert(s <= i - old_cur - 1 < s + l);
                        assert(g@[i - old_cur - 1] == 0);
                    }
                }
            }
            assert forall|s: int| #[trigger]
                zero_run(g@, s, best_len as int) && s + best_len <= n implies best_start
                <= s by {
                if best_len == old_best_len {
                    if s + best_len <= i {
                    } else if best_len > 0 {
                        assert(g@[i as int] == 0);
                        if best_len > old_cur + 1 {
                            assert(s <= i - old_cur - 1 < s + best_len);
                            assert(g@[i - old_cur - 1] == 0);
                        }
                    }
                } else {
                    // the new best ends at index i, and no run of its length ends earlier
                    if s + best_len <= i {
                        assert(zero_run(g@, s, best_len as int));
                    }
                }
            }
        }
        i = i + 1;
    }
    (best_start, best_len)
}

/// The canonical text of an IPv6 address given as eight 16-bit groups.
pub fn ipv6_to_string(g: &[u16; 8]) -> (s: String)
    ensures
        s@ == ipv6_text(g@),
{
    let mut s = String::new();
    if g[0] == 0 && g[1] == 0 && g[2] == 0 && g[3] == 0 && g[4] == 0 && g[5] == 0xffff {
        s.push(':');
        s.push(':');
        s.push('f');
        s.push('f');
        s.push('f');
        s.push('f');
        s.push(':');
        let a: u8 = (g[6] / 256) as u8;
        let b: u8 = (g[6] % 256) as u8;
        let c: u8 = (g[7] / 256) as u8;
        let d: u8 = (g[7] % 256) as u8;
        push_ipv4(&mut s, a, b, c, d);
        assert(s@ =~= ipv6_text(g@));
    } else {
        let run = find_longest_zero_run(g);
        proof {
            let p = (run.0 as int, run.1 as int);
            assert(longest_zero_run(g@, p.0, p.1));
            let e = elided_run(g@);
            lemma_longest_zero_run_unique(g@, p.0, p.1, e.0, e.1);
        }
        if run.1 >= 2 {
            push_groups(&mut s, g, 0, run.0);
            s.push(':');
            s.push(':');
            push_groups(&mut s, g, run.0 + run.1, 8);
        } else {
            push_groups(&mut s, g, 0, 8);
            assert(g@.subrange(0, 8) =~= g@);
        }
        assert(s@ =~= ipv6_text(g@));
    }
    s
}

} // verus!
