use vstd::prelude::*;

verus! {

/// ASCII code of the character standing for a six-bit value in the standard
/// base64 alphabet.
pub open spec fn b64_digit(n: int) -> u8
    recommends
        0 <= n < 64,
{
    if n < 26 {
        (65 + n) as u8  // 'A' to 'Z'
    } else if n < 52 {
        (71 + n) as u8  // 'a' to 'z'
    } else if n < 62 {
        (n - 4) as u8  // '0' to '9'
    } else if n == 62 {
        43  // '+'
    } else {
        47  // '/'
    }
}

/// Unpadded standard base64 of a byte sequence, as ASCII codes: each group of
/// three bytes yields four characters, and a trailing group of one or two
/// bytes yields two or three.
pub open spec fn b64_of(s: Seq<u8>) -> Seq<u8>
    decreases s.len(),
{
    if s.len() >= 3 {
        seq![
            b64_digit(s[0] as int / 4),
            b64_digit((s[0] as int % 4) * 16 + s[1] as int / 16),
            b64_digit((s[1] as int % 16) * 4 + s[2] as int / 64),
            b64_digit(s[2] as int % 64),
        ] + b64_of(s.skip(3))
    } else if s.len() == 2 {
        seq![
            b64_digit(s[0] as int / 4),
            b64_digit((s[0] as int % 4) * 16 + s[1] as int / 16),
            b64_digit((s[1] as int % 16) * 4),
        ]
    } else if s.len() == 1 {
        seq![b64_digit(s[0] as int / 4), b64_digit((s[0] as int % 4) * 16)]
    } else {
        Seq::empty()
    }
}

/// Every byte of a base64 rendering lies strictly between ASCII '*' and '{':
/// in particular none of them is a dollar sign, and all are ASCII.
pub proof fn lemma_b64_of_range(s: Seq<u8>)
    ensures
        forall|i: int| 0 <= i < b64_of(s).len() ==> 43 <= #[trigger] b64_of(s)[i] < 123,
    decreases s.len(),
{
    if s.len() >= 3 {
        lemma_b64_of_range(s.skip(3));
        let b = b64_of(s);
        let bt = b64_of(s.skip(3));
        assert forall|i: int| 0 <= i < b.len() implies 43 <= #[trigger] b[i] < 123 by {
            if i >= 4 {
                assert(b[i] == bt[i - 4]);
            }
        }
    }
}

/// The base64 digit, executably.
fn b64_digit_code(n: u8) -> (r: u8)
    requires
        n < 64,
    ensures
        r == b64_digit(n as int),
{
    if n < 26 {
        65 + n
    } else if n < 52 {
        71 + n
    } else if n < 62 {
        n - 4
    } else if n == 62 {
        43
    } else {
        47
    }
}

/// Unpadded standard base64 encoding of `bytes`, as ASCII codes.
pub fn b64_encode(bytes: &[u8]) -> (out: Vec<u8>)
    ensures
        out@ == b64_of(bytes@),
{
    let mut out: Vec<u8> = Vec::new();
    let mut i: usize = 0;
    proof {
        assert(bytes@.skip(0) =~= bytes@);
        assert(out@ + b64_of(bytes@) =~= b64_of(bytes@));
    }
    while bytes.len() - i >= 3
        invariant
            i <= bytes@.len(),
            out@ + b64_of(bytes@.skip(i as int)) == b64_of(bytes@),
        decreases bytes@.len() - i,
    {
        let b0 = bytes[i];
        let b1 = bytes[i + 1];
        let b2 = bytes[i + 2];
        out.push(b64_digit_code(b0 / 4));
        out.push(b64_digit_code((b0 % 4) * 16 + b1 / 16));
        out.push(b64_digit_code((b1 % 16) * 4 + b2 / 64));
        out.push(b64_digit_code(b2 % 64));
        proof {
            assert(bytes@.skip(i as int).skip(3) =~= bytes@.skip(i + 3));
            assert(out@ + b64_of(bytes@.skip(i + 3)) =~= b64_of(bytes@));
        }
        i = i + 3;
    }
    if bytes.len() - i == 2 {
        let b0 = bytes[i];
        let b1 = bytes[i + 1];
        out.push(b64_digit_code(b0 / 4));
        out.push(b64_digit_code((b0 % 4) * 16 + b1 / 16));
        out.push(b64_digit_code((b1 % 16) * 4));
        proof {
            assert(out@ =~= b64_of(bytes@));
        }
    } else if bytes.len() - i == 1 {
        let b0 = bytes[i];
        out.push(b64_digit_code(b0 / 4));
        out.push(b64_digit_code((b0 % 4) * 16));
        proof {
            assert(out@ =~= b64_of(bytes@));
        }
    } else {
        proof {
            assert(out@ =~= b64_of(bytes@));
        }
    }
    out
}


/// The six-bit value a base64 character stands for, or -1 for a byte outside
/// the alphabet.
pub open spec fn b64_val(b: u8) -> int {
    if 65 <= b <= 90 {
        b - 65  // 'A' to 'Z'
    } else if 97 <= b <= 122 {
        b - 71  // 'a' to 'z'
    } else if 48 <= b <= 57 {
        b + 4  // '0' to '9'
    } else if b == 43 {
        62  // '+'
    } else if b == 47 {
        63  // '/'
    } else {
        -1
    }
}

/// Reading a digit back gives the six-bit value it stands for.
pub proof fn lemma_b64_val_of_digit(n: int)
    requires
        0 <= n < 64,
    ensures
        b64_val(b64_digit(n)) == n,
{
}

/// Decode unpadded standard base64, as `b64_of` lays it down: groups of four
/// characters yield three bytes, a trailing group of two or three characters
/// yields one or two, and a length of one more than a multiple of four, or
/// any byte outside the alphabet, decodes to nothing.
pub open spec fn b64_decode(s: Seq<u8>) -> Option<Seq<u8>>
    decreases s.len(),
{
    if s.len() == 0 {
        Some(Seq::empty())
    } else if s.len() == 1 {
        None
    } else if s.len() == 2 {
        if b64_val(s[0]) >= 0 && b64_val(s[1]) >= 0 {
            Some(seq![(b64_val(s[0]) * 4 + b64_val(s[1]) / 16) as u8])
        } else {
            None
        }
    } else if s.len() == 3 {
        if b64_val(s[0]) >= 0 && b64_val(s[1]) >= 0 && b64_val(s[2]) >= 0 {
            Some(
                seq![
                    (b64_val(s[0]) * 4 + b64_val(s[1]) / 16) as u8,
                    ((b64_val(s[1]) % 16) * 16 + b64_val(s[2]) / 4) as u8,
                ],
            )
        } else {
            None
        }
    } else {
        if b64_val(s[0]) >= 0 && b64_val(s[1]) >= 0 && b64_val(s[2]) >= 0 && b64_val(s[3]) >= 0 {
            match b64_decode(s.skip(4)) {
                Some(rest) => Some(
                    seq![
                        (b64_val(s[0]) * 4 + b64_val(s[1]) / 16) as u8,
                        ((b64_val(s[1]) % 16) * 16 + b64_val(s[2]) / 4) as u8,
                        ((b64_val(s[2]) % 4) * 64 + b64_val(s[3])) as u8,
                    ] + rest,
                ),
                None => None,
            }
        } else {
            None
        }
    }
}

/// Decoding inverts encoding: the base64 rendering of any byte sequence
/// decodes back to that sequence.
pub proof fn lemma_b64_decode_of(x: Seq<u8>)
    ensures
        b64_decode(b64_of(x)) == Some(x),
    decreases x.len(),
{
    let e = b64_of(x);
    if x.len() == 0 {
        assert(x =~= Seq::<u8>::empty());
    } else if x.len() == 1 {
        lemma_b64_val_of_digit(x[0] as int / 4);
        lemma_b64_val_of_digit((x[0] as int % 4) * 16);
        assert(b64_val(e[0]) == x[0] as int / 4);
        assert(b64_val(e[1]) == (x[0] as int % 4) * 16);
        assert((x[0] as int / 4) * 4 + ((x[0] as int % 4) * 16) / 16 == x[0] as int);
        assert(b64_decode(e) == Some(seq![x[0]]));
        assert(seq![x[0]] =~= x);
    } else if x.len() == 2 {
        lemma_b64_val_of_digit(x[0] as int / 4);
        lemma_b64_val_of_digit((x[0] as int % 4) * 16 + x[1] as int / 16);
        lemma_b64_val_of_digit((x[1] as int % 16) * 4);
        let v0 = b64_val(e[0]);
        let v1 = b64_val(e[1]);
        let v2 = b64_val(e[2]);
        assert(v0 * 4 + v1 / 16 == x[0] as int);
        assert((v1 % 16) * 16 + v2 / 4 == x[1] as int);
        assert(seq![x[0], x[1]] =~= x);
    } else {
        lemma_b64_decode_of(x.skip(3));
        lemma_b64_val_of_digit(x[0] as int / 4);
        lemma_b64_val_of_digit((x[0] as int % 4) * 16 + x[1] as int / 16);
        lemma_b64_val_of_digit((x[1] as int % 16) * 4 + x[2] as int / 64);
        lemma_b64_val_of_digit(x[2] as int % 64);
        let v0 = b64_val(e[0]);
        let v1 = b64_val(e[1]);
        let v2 = b64_val(e[2]);
        let v3 = b64_val(e[3]);
        assert(e.skip(4) =~= b64_of(x.skip(3)));
        assert(v0 * 4 + v1 / 16 == x[0] as int);
        assert((v1 % 16) * 16 + v2 / 4 == x[1] as int);
        assert((v2 % 4) * 64 + v3 == x[2] as int);
        assert(e.len() >= 4);
        assert(b64_decode(e) == Some(seq![x[0], x[1], x[2]] + x.skip(3)));
        assert(seq![x[0], x[1], x[2]] + x.skip(3) =~= x);
    }
}

/// The six-bit value of a base64 character, executably: 64 marks a byte
/// outside the alphabet.
fn b64_val_code(b: u8) -> (v: u8)
    ensures
        b64_val(b) >= 0 ==> v == b64_val(b),
        b64_val(b) < 0 ==> v == 64,
{
    if 65 <= b && b <= 90 {
        b - 65
    } else if 97 <= b && b <= 122 {
        b - 71
    } else if 48 <= b && b <= 57 {
        b + 4
    } else if b == 43 {
        62
    } else if b == 47 {
        63
    } else {
        64
    }
}

/// Decode unpadded standard base64, deciding exactly as `b64_decode` states.
pub fn b64_decode_bytes(s: &[u8]) -> (res: Option<Vec<u8>>)
    ensures
        match res {
            Some(v) => b64_decode(s@) == Some(v@),
            None => b64_decode(s@) is None,
        },
{
    let slen = s.len();
    let mut out: Vec<u8> = Vec::new();
    let mut i: usize = 0;
    proof {
        assert(s@.skip(0) =~= s@);
        assert(out@ + s@ =~= s@);
    }
    while slen - i >= 4
        invariant
            i <= slen,
            s@.len() == slen,
            b64_decode(s@) == (match b64_decode(s@.skip(i as int)) {
                Some(rest) => Some(out@ + rest),
                None => None::<Seq<u8>>,
            }),
        decreases slen - i,
    {
        let v0 = b64_val_code(s[i]);
        let v1 = b64_val_code(s[i + 1]);
        let v2 = b64_val_code(s[i + 2]);
        let v3 = b64_val_code(s[i + 3]);
        if v0 == 64 || v1 == 64 || v2 == 64 || v3 == 64 {
            return None;
        }
        let ghost prev = out@;
        let ghost tail = s@.skip(i as int);
        out.push(v0 * 4 + v1 / 16);
        out.push((v1 % 16) * 16 + v2 / 4);
        out.push((v2 % 4) * 64 + v3);
        proof {
            assert(tail.skip(4) =~= s@.skip(i + 4));
            let first3 = seq![
                (b64_val(tail[0]) * 4 + b64_val(tail[1]) / 16) as u8,
                ((b64_val(tail[1]) % 16) * 16 + b64_val(tail[2]) / 4) as u8,
                ((b64_val(tail[2]) % 4) * 64 + b64_val(tail[3])) as u8,
            ];
            assert(out@ =~= prev + first3);
            match b64_decode(s@.skip(i + 4)) {
                Some(rest) => {
                    assert(b64_decode(tail) == Some(first3 + rest));
                    assert(prev + (first3 + rest) =~= out@ + rest);
                },
                None => {
                    assert(b64_decode(tail) is None);
                },
            }
        }
        i = i + 4;
    }
    if slen - i == 0 {
        proof {
            assert(s@.skip(i as int) =~= Seq::<u8>::empty());
            assert(b64_decode(s@) == Some(out@ + Seq::<u8>::empty()));
            assert(out@ + Seq::<u8>::empty() =~= out@);
        }
        Some(out)
    } else if slen - i == 1 {
        None
    } else if slen - i == 2 {
        let v0 = b64_val_code(s[i]);
        let v1 = b64_val_code(s[i + 1]);
        if v0 == 64 || v1 == 64 {
            return None;
        }
        let ghost prev = out@;
        let ghost tail = s@.skip(i as int);
        out.push(v0 * 4 + v1 / 16);
        proof {
            assert(b64_decode(tail) == Some(seq![(b64_val(tail[0]) * 4 + b64_val(tail[1]) / 16) as u8]));
            assert(prev + seq![(b64_val(tail[0]) * 4 + b64_val(tail[1]) / 16) as u8] =~= out@);
        }
        Some(out)
    } else {
        let v0 = b64_val_code(s[i]);
        let v1 = b64_val_code(s[i + 1]);
        let v2 = b64_val_code(s[i + 2]);
        if v0 == 64 || v1 == 64 || v2 == 64 {
            return None;
        }
        let ghost prev = out@;
        let ghost tail = s@.skip(i as int);
        out.push(v0 * 4 + v1 / 16);
        out.push((v1 % 16) * 16 + v2 / 4);
        proof {
            let two = seq![
                (b64_val(tail[0]) * 4 + b64_val(tail[1]) / 16) as u8,
                ((b64_val(tail[1]) % 16) * 16 + b64_val(tail[2]) / 4) as u8,
            ];
            assert(b64_decode(tail) == Some(two));
            assert(prev + two =~= out@);
        }
        Some(out)
    }
}

} // verus!
