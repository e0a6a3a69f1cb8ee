use vstd::prelude::*;

verus! {

/// Value of one ASCII hexadecimal digit, if `b` is one.
pub open spec fn hex_value(b: u8) -> Option<u8> {
    if 48 <= b <= 57 {
        Some((b - 48) as u8)
    } else if 65 <= b <= 70 {
        Some((b - 55) as u8)
    } else if 97 <= b <= 102 {
        Some((b - 87) as u8)
    } else {
        None
    }
}

/// Upper-case hexadecimal digit of a value below 16.
pub open spec fn hex_char(v: u8) -> u8 {
    if v < 10 {
        (v + 48) as u8
    } else {
        (v + 55) as u8
    }
}

/// Percent-decoding of a byte string: `%XX` gives the byte `0xXX`, every other
/// byte (`+` included) stands for itself; a `%` without two hex digits after
/// it makes the whole string invalid.
pub open spec fn percent_decoded(s: Seq<u8>) -> Option<Seq<u8>>
    decreases s.len(),
{
    if s.len() == 0 {
        Some(Seq::<u8>::empty())
    } else if s[0] == 37 {
        if s.len() < 3 {
            None
        } else {
            match (hex_value(s[1]), hex_value(s[2]), percent_decoded(s.skip(3))) {
                (Some(hi), Some(lo), Some(rest)) => Some(seq![(hi * 16 + lo) as u8] + rest),
                _ => None,
            }
        }
    } else {
        match percent_decoded(s.skip(1)) {
            Some(rest) => Some(seq![s[0]] + rest),
            None => None,
        }
    }
}

/// Percent-encoding that escapes every byte as `%XX`.
pub open spec fn percent_encoded(s: Seq<u8>) -> Seq<u8>
    decreases s.len(),
{
    if s.len() == 0 {
        Seq::<u8>::empty()
    } else {
        seq![37u8, hex_char(s[0] / 16), hex_char(s[0] % 16)] + percent_encoded(s.skip(1))
    }
}

/// Every `%` replaced by `%25`, all other bytes kept.
pub open spec fn percent_escaped(s: Seq<u8>) -> Seq<u8>
    decreases s.len(),
{
    if s.len() == 0 {
        Seq::<u8>::empty()
    } else if s[0] == 37 {
        seq![37u8, 50u8, 53u8] + percent_escaped(s.skip(1))
    } else {
        seq![s[0]] + percent_escaped(s.skip(1))
    }
}

/// Reads one hexadecimal digit.
pub fn hex_digit(b: u8) -> (r: Option<u8>)
    ensures
        r == hex_value(b),
{
    if 48 <= b && b <= 57 {
        Some(b - 48)
    } else if 65 <= b && b <= 70 {
        Some(b - 55)
    } else if 97 <= b && b <= 102 {
        Some(b - 87)
    } else {
        None
    }
}

proof fn lemma_skip_subrange(s: Seq<u8>, i: int, j: int, k: int)
    requires
        0 <= i <= j,
        i + k <= j,
        0 <= k,
        j <= s.len(),
    ensures
        s.subrange(i, j).skip(k) =~= s.subrange(i + k, j),
{
}

/// Percent-decodes the bytes `s[lo..hi]`.
pub fn percent_decode(s: &[u8], lo: usize, hi: usize) -> (r: Option<Vec<u8>>)
    requires
        lo <= hi <= s@.len(),
    ensures
        match r {
            Some(v) => percent_decoded(s@.subrange(lo as int, hi as int)) == Some(v@),
            None => percent_decoded(s@.subrange(lo as int, hi as int)) is None,
        },
{
    let mut out: Vec<u8> = Vec::new();
    let mut i: usize = lo;
    while i < hi
        invariant
            lo <= i <= hi <= s@.len(),
            percent_decoded(s@.subrange(lo as int, hi as int)) == match percent_decoded(
                s@.subrange(i as int, hi as int),
            ) {
                Some(t) => Some(out@ + t),
                None => None,
            },
        decreases hi - i,
    {
        let ghost rest = s@.subrange(i as int, hi as int);
        if s[i] == 37 {
            if hi - i < 3 {
                return None;
            }
            let a = hex_digit(s[i + 1]);
            let b = hex_digit(s[i + 2]);
            match (a, b) {
                (Some(x), Some(y)) => {
                    proof {
                        lemma_skip_subrange(s@, i as int, hi as int, 3);
                    }
                    let ghost old_out = out@;
                    out.push(x * 16 + y);
                    i = i + 3;
                    proof {
                        assert(out@ == old_out + seq![(x * 16 + y) as u8]);
                        match percent_decoded(s@.subrange(i as int, hi as int)) {
                            Some(t) => {
                                assert(old_out + (seq![(x * 16 + y) as u8] + t) =~= out@ + t);
                            },
                            None => {},
                        }
                    }
                },
                _ => {
                    return None;
                },
            }
        } else {
            proof {
                lemma_skip_subrange(s@, i as int, hi as int, 1);
            }
            let ghost old_out = out@;
            out.push(s[i]);
            i = i + 1;
            proof {
                match percent_decoded(s@.subrange(i as int, hi as int)) {
                    Some(t) => {
                        assert(old_out + (seq![rest[0]] + t) =~= out@ + t);
                    },
                    None => {},
                }
            }
        }
    }
    proof {
        assert(s@.subrange(i as int, hi as int) =~= Seq::<u8>::empty());
        assert(out@ + Seq::<u8>::empty() =~= out@);
    }
    Some(out)
}

/// Percent-encodes every byte of `s` as `%XX`, upper-case.
pub fn percent_encode(s: &[u8]) -> (r: Vec<u8>)
    ensures
        r@ == percent_encoded(s@),
{
    let mut i: usize = s.len();
    let mut acc: Vec<u8> = Vec::new();
    // Built from the back, so that each step is one unfolding of the spec.
    while i > 0
        invariant
            i <= s@.len(),
            acc@ == percent_encoded(s@.skip(i as int)),
        decreases i,
    {
        i = i - 1;
        let b = s[i];
        let mut piece: Vec<u8> = Vec::new();
        piece.push(37);
        piece.push(hex_upper(b / 16));
        piece.push(hex_upper(b % 16));
        let mut j: usize = 0;
        while j < acc.len()
            invariant
                j <= acc@.len(),
                piece@ == seq![37u8, hex_char(b / 16), hex_char(b % 16)] + acc@.take(j as int),
            decreases acc@.len() - j,
        {
            piece.push(acc[j]);
            j = j + 1;
            proof {
                assert(acc@.take(j as int) =~= acc@.take(j - 1).push(acc@[j - 1]));
            }
        }
        proof {
            assert(acc@.take(j as int) =~= acc@);
            assert(s@.skip(i as int).skip(1) =~= s@.skip(i + 1));
        }
        acc = piece;
    }
    proof {
        assert(s@.skip(0) =~= s@);
    }
    acc
}

fn hex_upper(v: u8) -> (r: u8)
    requires
        v < 16,
    ensures
        r == hex_char(v),
{
    if v < 10 {
        v + 48
    } else {
        v + 55
    }
}

/// Replaces every `%` of `s` by `%25`, so that decoding gives `s` back.
pub fn escape_percent(s: &[u8]) -> (r: Vec<u8>)
    ensures
        r@ == percent_escaped(s@),
{
    let mut out: Vec<u8> = Vec::new();
    let mut i: usize = 0;
    proof {
        assert(s@.skip(0) =~= s@);
        assert(out@ + percent_escaped(s@) =~= percent_escaped(s@));
    }
    while i < s.len()
        invariant
            i <= s@.len(),
            percent_escaped(s@) == out@ + percent_escaped(s@.skip(i as int)),
        decreases s@.len() - i,
    {
        let ghost before = out@;
        proof {
            assert(s@.skip(i as int).skip(1) =~= s@.skip(i + 1));
        }
        if s[i] == 37 {
            out.push(37);
            out.push(50);
            out.push(53);
            proof {
                assert(before + (seq![37u8, 50u8, 53u8] + percent_escaped(s@.skip(i + 1)))
                    =~= out@ + percent_escaped(s@.skip(i + 1)));
            }
        } else {
            out.push(s[i]);
            proof {
                assert(before + (seq![s@[i as int]] + percent_escaped(s@.skip(i + 1)))
                    =~= out@ + percent_escaped(s@.skip(i + 1)));
            }
        }
        i = i + 1;
    }
    proof {
        assert(s@.skip(i as int) =~= Seq::<u8>::empty());
        assert(out@ + Seq::<u8>::empty() =~= out@);
    }
    out
}

/// Decoding undoes encoding, for every byte string.
pub proof fn lemma_decode_encode(s: Seq<u8>)
    ensures
        percent_decoded(percent_encoded(s)) == Some(s),
    decreases s.len(),
{
    if s.len() == 0 {
        assert(percent_encoded(s) =~= Seq::<u8>::empty());
    } else {
        let b = s[0];
        let e = percent_encoded(s);
        let tail = percent_encoded(s.skip(1));
        lemma_decode_encode(s.skip(1));
        assert(hex_value(hex_char(b / 16)) == Some((b / 16) as u8));
        assert(hex_value(hex_char(b % 16)) == Some((b % 16) as u8));
        assert(e.skip(3) =~= tail);
        assert(e[0] == 37 && e[1] == hex_char(b / 16) && e[2] == hex_char(b % 16));
        assert(((b / 16) * 16 + b % 16) as u8 == b);
        assert(seq![b] + s.skip(1) =~= s);
    }
}

/// Decoding undoes the escaping of `%`, for every byte string.
pub proof fn lemma_decode_escape(s: Seq<u8>)
    ensures
        percent_decoded(percent_escaped(s)) == Some(s),
    decreases s.len(),
{
    if s.len() == 0 {
        assert(percent_escaped(s) =~= Seq::<u8>::empty());
    } else {
        let e = percent_escaped(s);
        let tail = percent_escaped(s.skip(1));
        lemma_decode_escape(s.skip(1));
        if s[0] == 37 {
            assert(e.skip(3) =~= tail);
            assert(e[0] == 37 && e[1] == 50 && e[2] == 53);
        } else {
            assert(e.skip(1) =~= tail);
            assert(e[0] == s[0]);
        }
        assert(seq![s[0]] + s.skip(1) =~= s);
    }
}

/// Appends the bytes of `s` to `out`.
pub fn append_bytes(out: &mut Vec<u8>, s: &Vec<u8>)
    ensures
        final(out)@ == old(out)@ + s@,
{
    let mut j: usize = 0;
    while j < s.len()
        invariant
            j <= s@.len(),
            out@ == old(out)@ + s@.take(j as int),
        decreases s@.len() - j,
    {
        out.push(s[j]);
        j = j + 1;
        proof {
            assert(old(out)@ + s@.take(j as int) =~= (old(out)@ + s@.take(j - 1)).push(s@[j - 1]));
        }
    }
    proof {
        assert(s@.take(j as int) =~= s@);
    }
}

} // verus!
