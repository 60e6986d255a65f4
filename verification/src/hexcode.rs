use vstd::prelude::*;

verus! {

/// ASCII code of the lowercase hexadecimal digit for a value below sixteen.
pub open spec fn hex_digit(n: int) -> u8
    recommends
        0 <= n < 16,
{
    if n < 10 {
        (48 + n) as u8
    } else {
        (87 + n) as u8
    }
}

/// Lowercase hexadecimal rendering of a byte sequence: two digits per byte,
/// high nibble first.
pub open spec fn hex_of(s: Seq<u8>) -> Seq<u8>
    decreases s.len(),
{
    if s.len() == 0 {
        Seq::empty()
    } else {
        hex_of(s.drop_last()) + seq![
            hex_digit(s.last() as int / 16),
            hex_digit(s.last() as int % 16),
        ]
    }
}

pub proof fn lemma_hex_of_len(s: Seq<u8>)
    ensures
        hex_of(s).len() == 2 * s.len(),
    decreases s.len(),
{
    if s.len() > 0 {
        lemma_hex_of_len(s.drop_last());
    }
}

/// Every byte of a hexadecimal rendering is an ASCII digit or lowercase letter.
pub proof fn lemma_hex_of_ascii(s: Seq<u8>)
    ensures
        forall|i: int| 0 <= i < hex_of(s).len() ==> 48 <= #[trigger] hex_of(s)[i] < 123,
    decreases s.len(),
{
    if s.len() > 0 {
        lemma_hex_of_ascii(s.drop_last());
        let h = hex_of(s);
        let hd = hex_of(s.drop_last());
        assert forall|i: int| 0 <= i < h.len() implies 48 <= #[trigger] h[i] < 123 by {
            if i < hd.len() {
                assert(h[i] == hd[i]);
            } else {
                assert(h[i] == hex_digit(s.last() as int / 16) || h[i] == hex_digit(
                    s.last() as int % 16,
                ));
            }
        }
    }
}

/// Lowercase hexadecimal encoding of `bytes`, as ASCII codes.
pub fn encode_hex(bytes: &[u8]) -> (out: Vec<u8>)
    ensures
        out@ == hex_of(bytes@),
        out@.len() == 2 * bytes@.len(),
{
    let mut out: Vec<u8> = Vec::new();
    let mut i: usize = 0;
    while i < bytes.len()
        invariant
            i <= bytes@.len(),
            out@ == hex_of(bytes@.take(i as int)),
        decreases bytes@.len() - i,
    {
        let b = bytes[i];
        let hi: u8 = b / 16;
        let lo: u8 = b % 16;
        out.push(if hi < 10 { 48 + hi } else { 87 + hi });
        out.push(if lo < 10 { 48 + lo } else { 87 + lo });
        i = i + 1;
        proof {
            let t = bytes@.take(i as int);
            assert(t.drop_last() =~= bytes@.take(i - 1));
            assert(t.last() == b);
            assert(out@ =~= hex_of(t));
        }
    }
    proof {
        assert(bytes@.take(bytes@.len() as int) =~= bytes@);
        lemma_hex_of_len(bytes@);
    }
    out
}

} // verus!
