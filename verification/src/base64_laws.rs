//! What holds of base64, in which credentials are sent.
use vstd::prelude::*;

use crate::curl_parse::{base64, base64_char};

verus! {

/// The letters of base64, each at the place of the six bits it stands for.
#[verifier::opaque]
pub open spec fn base64_letters() -> Seq<char> {
    seq![
        'A', 'B', 'C', 'D', 'E', 'F', 'G', 'H', 'I', 'J', 'K', 'L', 'M', 'N', 'O', 'P', 'Q', 'R', 'S', 'T',
        'U', 'V', 'W', 'X', 'Y', 'Z', 'a', 'b', 'c', 'd', 'e', 'f', 'g', 'h', 'i', 'j', 'k', 'l', 'm', 'n',
        'o', 'p', 'q', 'r', 's', 't', 'u', 'v', 'w', 'x', 'y', 'z', '0', '1', '2', '3', '4', '5', '6', '7',
        '8', '9', '+', '/',
    ]
}

proof fn lemma_letter(k: int)
    requires
        0 <= k < 64,
    ensures
        base64_char(k) == base64_letters()[k],
{
    reveal(base64_letters);
}

proof fn lemma_bits(n: int, w: int, x: int, y: int, z: int)
    requires
        0 <= w < 64 && 0 <= x < 64 && 0 <= y < 64 && 0 <= z < 64,
        n == w * 262144 + x * 4096 + y * 64 + z,
    ensures
        n / 262144 == w,
        (n / 4096) % 64 == x,
        (n / 64) % 64 == y,
        n % 64 == z,
{
}

/// Three bytes are the four letters of their four times six bits, and what follows is
/// written behind them.
pub proof fn law_three_bytes_are_four_letters(
    a: u8,
    b: u8,
    c: u8,
    rest: Seq<u8>,
    w: int,
    x: int,
    y: int,
    z: int,
)
    requires
        0 <= w < 64 && 0 <= x < 64 && 0 <= y < 64 && 0 <= z < 64,
        w * 262144 + x * 4096 + y * 64 + z == a * 65536 + b * 256 + c,
    ensures
        base64(seq![a, b, c] + rest) == seq![
            base64_letters()[w],
            base64_letters()[x],
            base64_letters()[y],
            base64_letters()[z],
        ] + base64(rest),
{
    let l = base64_letters();
    lemma_letter(w);
    lemma_letter(x);
    lemma_letter(y);
    lemma_letter(z);
    let all = seq![a, b, c] + rest;
    assert(all[0] == a && all[1] == b && all[2] == c);
    lemma_bits(a * 65536 + b * 256 + c, w, x, y, z);
    assert(all.skip(3) =~= rest);
    if rest.len() == 0 {
        assert(base64(rest) =~= Seq::<char>::empty());
    }
    assert(base64(all) =~= seq![l[w], l[x], l[y], l[z]] + base64(rest));
}

/// Two bytes at the end are three letters and a sign.
pub proof fn law_two_bytes_are_three_letters(a: u8, b: u8, w: int, x: int, y: int)
    requires
        0 <= w < 64 && 0 <= x < 64 && 0 <= y < 64,
        w * 4096 + x * 64 + y == a * 1024 + b * 4,
    ensures
        base64(seq![a, b]) == seq![base64_letters()[w], base64_letters()[x], base64_letters()[y], '='],
{
    let l = base64_letters();
    lemma_letter(w);
    lemma_letter(x);
    lemma_letter(y);
    let all = seq![a, b];
    assert(all[0] == a && all[1] == b);
    lemma_bits(a * 65536 + b * 256, w, x, y, 0);
    assert(base64(all) =~= seq![l[w], l[x], l[y], '=']);
}

/// One byte at the end is two letters and two signs.
pub proof fn law_one_byte_is_two_letters(a: u8, w: int, x: int)
    requires
        0 <= w < 64 && 0 <= x < 64,
        w * 64 + x == a * 16,
    ensures
        base64(seq![a]) == seq![base64_letters()[w], base64_letters()[x], '=', '='],
{
    let l = base64_letters();
    lemma_letter(w);
    lemma_letter(x);
    let all = seq![a];
    assert(all[0] == a);
    lemma_bits(a * 65536, w, x, 0, 0);
    assert(base64(all) =~= seq![l[w], l[x], '=', '=']);
}

} // verus!
