//! Integer formatting: lower-case hexadecimal (`{:x}`, `{:0w$x}`) and
//! zero-padded decimal (`{:0w$}`).
use vstd::prelude::*;

verus! {

/// A lower-case hexadecimal digit.
pub open spec fn hex_digit(d: nat) -> char {
    if d < 10 {
        ((d + 48) as u8) as char
    } else {
        ((d + 87) as u8) as char
    }
}

/// `{:x}` of `n`: lower-case hexadecimal without leading zeros.
pub open spec fn hex_repr(n: nat) -> Seq<char>
    decreases n,
{
    if n < 16 {
        seq![hex_digit(n)]
    } else {
        hex_repr(n / 16).push(hex_digit(n % 16))
    }
}

/// `{:0w$x}` of `n`: zero-padded to at least `w` characters.
pub open spec fn hex_padded(n: nat, w: nat) -> Seq<char> {
    let h = hex_repr(n);
    if h.len() < w {
        Seq::new((w - h.len()) as nat, |i: int| '0') + h
    } else {
        h
    }
}

pub fn hex_digit_exec(d: u64) -> (c: char)
    requires
        d < 16,
    ensures
        c == hex_digit(d as nat),
{
    if d < 10 {
        ((d + 48) as u8) as char
    } else {
        ((d + 87) as u8) as char
    }
}

/// `{:0w$x}` of `n`, as characters.
pub fn hex_padded_chars(n: u64, w: usize) -> (r: Vec<char>)
    ensures
        r@ == hex_padded(n as nat, w as nat),
{
    let mut acc: Vec<char> = Vec::new();
    let mut m = n;
    while m >= 16
        invariant
            hex_repr(n as nat) == hex_repr(m as nat) + acc@,
        decreases m,
    {
        let d = hex_digit_exec(m % 16);
        let ghost before = acc@;
        acc.insert(0, d);
        proof {
            assert(hex_repr(m as nat) == hex_repr((m / 16) as nat).push(hex_digit((m % 16) as nat)));
            assert(acc@ =~= seq![d] + before);
            assert(hex_repr(n as nat) =~= hex_repr((m / 16) as nat) + acc@);
        }
        m = m / 16;
    }
    let d = hex_digit_exec(m);
    acc.insert(0, d);
    assert(acc@ =~= hex_repr(n as nat));
    let h = acc.len();
    if h >= w {
        return acc;
    }
    let mut r: Vec<char> = Vec::new();
    let mut k: usize = 0;
    while k < w - h
        invariant
            h == acc@.len() < w,
            k <= w - h,
            r@ == Seq::new(k as nat, |i: int| '0'),
        decreases w - h - k,
    {
        r.push('0');
        k += 1;
        proof { assert(r@ =~= Seq::new(k as nat, |i: int| '0')); }
    }
    let ghost pad = r@;
    let mut j: usize = 0;
    while j < h
        invariant
            j <= h == acc@.len(),
            r@ == pad + acc@.take(j as int),
        decreases h - j,
    {
        r.push(acc[j]);
        j += 1;
        proof { assert(acc@.take(j as int) =~= acc@.take(j - 1).push(acc@[j - 1])); }
    }
    assert(r@ =~= pad + acc@);
    r
}

/// The first `k` characters of `cs` (all of them when shorter).
pub fn take_chars(cs: &Vec<char>, k: usize) -> (r: Vec<char>)
    ensures
        r@ == if k <= cs@.len() { cs@.take(k as int) } else { cs@ },
{
    let n = if k <= cs.len() { k } else { cs.len() };
    let mut r: Vec<char> = Vec::new();
    let mut j: usize = 0;
    while j < n
        invariant
            n <= cs@.len(),
            j <= n,
            r@ == cs@.take(j as int),
        decreases n - j,
    {
        r.push(cs[j]);
        j += 1;
        proof { assert(cs@.take(j as int) =~= cs@.take(j - 1).push(cs@[j - 1])); }
    }
    assert(n == cs@.len() ==> cs@.take(n as int) =~= cs@);
    r
}


/// A decimal digit.
pub open spec fn dec_digit(d: nat) -> char {
    ((d + 48) as u8) as char
}

/// `{}` of `n`: decimal without leading zeros.
pub open spec fn dec_repr(n: nat) -> Seq<char>
    decreases n,
{
    if n < 10 {
        seq![dec_digit(n)]
    } else {
        dec_repr(n / 10).push(dec_digit(n % 10))
    }
}

/// `{:0w$}` of `n`: zero-padded to at least `w` characters.
pub open spec fn dec_padded(n: nat, w: nat) -> Seq<char> {
    let h = dec_repr(n);
    if h.len() < w {
        Seq::new((w - h.len()) as nat, |i: int| '0') + h
    } else {
        h
    }
}

/// `{:0w$}` of `n`, as characters.
pub fn dec_padded_chars(n: u64, w: usize) -> (r: Vec<char>)
    ensures
        r@ == dec_padded(n as nat, w as nat),
{
    let mut acc: Vec<char> = Vec::new();
    let mut m = n;
    while m >= 10
        invariant
            dec_repr(n as nat) == dec_repr(m as nat) + acc@,
        decreases m,
    {
        let d = ((m % 10) as u8 + 48) as char;
        let ghost before = acc@;
        acc.insert(0, d);
        proof {
            assert(dec_repr(m as nat) == dec_repr((m / 10) as nat).push(dec_digit((m % 10) as nat)));
            assert(acc@ =~= seq![d] + before);
            assert(dec_repr(n as nat) =~= dec_repr((m / 10) as nat) + acc@);
        }
        m = m / 10;
    }
    let d = (m as u8 + 48) as char;
    acc.insert(0, d);
    assert(acc@ =~= dec_repr(n as nat));
    let h = acc.len();
    if h >= w {
        return acc;
    }
    let mut r: Vec<char> = Vec::new();
    let mut k: usize = 0;
    while k < w - h
        invariant
            h == acc@.len() < w,
            k <= w - h,
            r@ == Seq::new(k as nat, |i: int| '0'),
        decreases w - h - k,
    {
        r.push('0');
        k += 1;
        proof { assert(r@ =~= Seq::new(k as nat, |i: int| '0')); }
    }
    let ghost pad = r@;
    let mut j: usize = 0;
    while j < h
        invariant
            j <= h == acc@.len(),
            r@ == pad + acc@.take(j as int),
        decreases h - j,
    {
        r.push(acc[j]);
        j += 1;
        proof { assert(acc@.take(j as int) =~= acc@.take(j - 1).push(acc@[j - 1])); }
    }
    assert(r@ =~= pad + acc@);
    r
}

} // verus!
