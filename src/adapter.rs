//! Turns proof coordinates given as decimal text into the canonical
//! big-endian proof layout: A in bytes [0, 64), B in [64, 192), C in [192, 256).
use crate::arith::{
    be_nat, fq_modulus, le_bytes, le_nat, lemma_be_nat_swapped, lemma_le_bytes_len,
    lemma_le_bytes_of, lemma_le_bytes_round_trip, lemma_le_nat_concat, lemma_le_nat_pos,
    lemma_le_nat_zero, lemma_moduli_bytes, lemma_moduli_fit, lt_le, FQ_MODULUS_LE,
};
use crate::curve::{
    decimal_value, g1_decodes, g1_is_valid, g1_on_curve, g1_negate, g1_reencode, g2_decodes, g2_is_valid,
    neg_fq, parse_decimal_le, y_with_sign_flag,
};
use crate::endian::{append_range, swap_chunks, swap_whole_chunks};
use vstd::arithmetic::div_mod::{lemma_mod_multiples_vanish, lemma_mod_self_0, lemma_small_mod};
use vstd::arithmetic::power::pow;
use vstd::prelude::*;

verus! {

/// Why a proof could not be converted.
#[derive(Clone, Copy, Debug, PartialEq, Eq, Structural)]
pub enum ProofError {
    /// The coordinate at this position is not decimal text; positions count
    /// the function's coordinates from 0 in the order they are given, and the
    /// first bad one is reported.
    ParseError(usize),
    /// A coordinate list of the raw proof has fewer than two entries.
    MissingCoordinate,
    /// The coordinates do not make a point of the curve.
    EncodingError,
}

/// A proof as an outside prover writes it: `pi_a = [x, y, 1]`,
/// `pi_b = [[x0, y0], [x1, y1], [1, 0]]`, `pi_c = [x, y, 1]`, all decimal.
pub struct RawProof {
    pub pi_a: Vec<String>,
    pub pi_b: Vec<Vec<String>>,
    pub pi_c: Vec<String>,
    pub protocol: String,
    pub curve: String,
}

/// The canonical blocks of a proof, and the 256-byte buffer they are written into.
pub struct PreparedProof {
    pub proof_a: Vec<u8>,
    pub proof_b: Vec<u8>,
    pub proof_c: Vec<u8>,
    pub raw: Vec<u8>,
}

/// The little-endian encoding of the affine G1 point (x, y).
pub open spec fn g1_le(x: nat, y: nat) -> Seq<u8> {
    le_bytes(x, 32) + le_bytes(y, 32)
}

/// The canonical block of the G1 point (x, y): x then y, 32 bytes each, big-endian.
pub open spec fn g1_block(x: nat, y: nat) -> Seq<u8> {
    swap_chunks(g1_le(x, y), 32)
}

/// The little-endian encoding of the G2 point with x = (x0, y0) and y = (x1, y1).
pub open spec fn g2_le(x0: nat, y0: nat, x1: nat, y1: nat) -> Seq<u8> {
    le_bytes(x0, 32) + le_bytes(y0, 32) + le_bytes(x1, 32) + le_bytes(y1, 32)
}

/// The 32-byte limb `k` of `s`.
pub open spec fn limb(s: Seq<u8>, k: int) -> Seq<u8> {
    s.subrange(32 * k, 32 * k + 32)
}

/// The canonical block of a G2 point: each limb big-endian, and the limbs in
/// the order x.c1, x.c0, y.c1, y.c0.
pub open spec fn g2_block(x0: nat, y0: nat, x1: nat, y1: nat) -> Seq<u8> {
    let be = swap_chunks(g2_le(x0, y0, x1, y1), 32);
    limb(be, 1) + limb(be, 0) + limb(be, 3) + limb(be, 2)
}

/// The coordinates of a G1 point given as decimal text, or why they are none.
pub open spec fn g1_coordinates(x: Seq<char>, y: Seq<char>) -> Result<(nat, nat), ProofError> {
    match decimal_value(x) {
        None => Err(ProofError::ParseError(0)),
        Some(a) => match decimal_value(y) {
            None => Err(ProofError::ParseError(1)),
            Some(b) => if a < fq_modulus() && b < fq_modulus() && g1_on_curve(a, b) {
                Ok((a, b))
            } else {
                Err(ProofError::EncodingError)
            },
        },
    }
}

/// The coordinates of a G2 point given as decimal text, or why they are none.
pub open spec fn g2_coordinates(x0: Seq<char>, y0: Seq<char>, x1: Seq<char>, y1: Seq<char>) -> Result<
    (nat, nat, nat, nat),
    ProofError,
> {
    match (decimal_value(x0), decimal_value(y0), decimal_value(x1), decimal_value(y1)) {
        (None, _, _, _) => Err(ProofError::ParseError(0)),
        (_, None, _, _) => Err(ProofError::ParseError(1)),
        (_, _, None, _) => Err(ProofError::ParseError(2)),
        (_, _, _, None) => Err(ProofError::ParseError(3)),
        (Some(a), Some(b), Some(c), Some(d)) => if a < fq_modulus() && b < fq_modulus() && c
            < fq_modulus() && d < fq_modulus() && g2_decodes(g2_le(a, b, c, d)) {
            Ok((a, b, c, d))
        } else {
            Err(ProofError::EncodingError)
        },
    }
}

/// `buf` with the bytes from `off` on replaced by `src`.
pub open spec fn overwrite(buf: Seq<u8>, off: int, src: Seq<u8>) -> Seq<u8> {
    buf.subrange(0, off) + src + buf.subrange(off + src.len(), buf.len() as int)
}

fn write_at(buf: &mut Vec<u8>, off: usize, src: &[u8])
    requires
        off + src@.len() <= old(buf)@.len(),
    ensures
        final(buf)@ == overwrite(old(buf)@, off as int, src@),
{
    let n = buf.len();
    let mut i: usize = 0;
    while i < src.len()
        invariant
            n == buf@.len(),
            off + src@.len() <= buf@.len(),
            buf@.len() == old(buf)@.len(),
            i <= src@.len(),
            forall|j: int| 0 <= j < off ==> #[trigger] buf@[j] == old(buf)@[j],
            forall|j: int| off + src@.len() <= j < buf@.len() ==> #[trigger] buf@[j] == old(buf)@[j],
            forall|j: int| 0 <= j < i ==> #[trigger] buf@[off + j] == src@[j],
            forall|j: int| off + i <= j < off + src@.len() ==> #[trigger] buf@[j] == old(buf)@[j],
        decreases src@.len() - i,
    {
        buf.set(off + i, src[i]);
        i += 1;
    }
    assert(buf@ =~= overwrite(old(buf)@, off as int, src@)) by {
        assert forall|j: int| 0 <= j < buf@.len() implies buf@[j] == overwrite(
            old(buf)@,
            off as int,
            src@,
        )[j] by {
            if off <= j < off + src@.len() {
                assert(buf@[off + (j - off)] == src@[j - off]);
            }
        }
    }
}

/// The 32-byte little-endian encoding of the number in `b` when it is below
/// the base field modulus.
fn field_element_le(b: &Vec<u8>) -> (r: Option<Vec<u8>>)
    ensures
        r is Some <==> le_nat(b@) < fq_modulus(),
        r matches Some(v) ==> v@ == le_bytes(le_nat(b@), 32) && v@.len() == 32,
{
    let mut low: Vec<u8> = Vec::new();
    let mut i: usize = 0;
    while i < 32
        invariant
            i <= 32,
            low@.len() == i,
            forall|j: int| 0 <= j < i ==> #[trigger] low@[j] == (if j < b@.len() {
                b@[j]
            } else {
                0u8
            }),
        decreases 32 - i,
    {
        if i < b.len() {
            low.push(b[i]);
        } else {
            low.push(0u8);
        }
        i += 1;
    }
    if b.len() > 32 {
        let n = b.len();
        let mut j: usize = 32;
        while j < n
            invariant
                n == b@.len(),
                32 <= j <= n,
                forall|k: int| 32 <= k < j ==> #[trigger] b@[k] == 0,
            decreases n - j,
        {
            if b[j] != 0 {
                proof {
                    let high = b@.subrange(32, b@.len() as int);
                    assert(b@ =~= b@.subrange(0, 32) + high);
                    lemma_le_nat_concat(b@.subrange(0, 32), high);
                    assert(high[j - 32] != 0);
                    lemma_le_nat_pos(high, j - 32);
                    lemma_moduli_fit();
                    vstd::arithmetic::power::lemma_pow_positive(256, 32);
                    assert(pow(256, 32) * le_nat(high) >= pow(256, 32)) by (nonlinear_arith)
                        requires
                            le_nat(high) >= 1,
                            pow(256, 32) > 0,
                    ;
                }
                return None;
            }
            j += 1;
        }
        let ghost high = b@.subrange(32, b@.len() as int);
        assert(b@ =~= low@ + high);
        assert forall|k: int| 0 <= k < high.len() implies #[trigger] high[k] == 0 by {
            assert(high[k] == b@[k + 32]);
        }
        proof {
            lemma_le_nat_concat(low@, high);
            lemma_le_nat_zero(high);
        }
    } else {
        let ghost zeros = low@.subrange(b@.len() as int, 32);
        assert(low@ =~= b@ + zeros);
        proof {
            lemma_le_nat_concat(b@, zeros);
            lemma_le_nat_zero(zeros);
        }
    }
    proof {
        lemma_moduli_fit();
        lemma_moduli_bytes();
    }
    proof {
        lemma_le_bytes_of(low@);
    }
    assert(le_nat(low@) == le_nat(b@));
    let modulus = FQ_MODULUS_LE.as_slice();
    assert(modulus@ == FQ_MODULUS_LE@);
    if lt_le(low.as_slice(), modulus) {
        Some(low)
    } else {
        None
    }
}


/// The little-endian encoding of the G1 point whose coordinates are given as
/// decimal text.
fn parse_g1(x: &str, y: &str) -> (r: Result<Vec<u8>, ProofError>)
    ensures
        match g1_coordinates(x@, y@) {
            Ok((a, b)) => r matches Ok(v) && v@ == g1_le(a, b),
            Err(e) => r == Err::<Vec<u8>, ProofError>(e),
        },
        r matches Ok(v) ==> v@.len() == 64 && g1_decodes(v@),
{
    let xb = match parse_decimal_le(x) {
        Some(xb) => xb,
        None => return Err(ProofError::ParseError(0)),
    };
    let yb = match parse_decimal_le(y) {
        Some(yb) => yb,
        None => return Err(ProofError::ParseError(1)),
    };
    let (mut le, yf) = match (field_element_le(&xb), field_element_le(&yb)) {
        (Some(xf), Some(yf)) => (xf, yf),
        _ => return Err(ProofError::EncodingError),
    };
    append_range(&mut le, yf.as_slice(), 0, 32);
    assert(yf@.subrange(0, 32) =~= yf@);
    proof {
        lemma_moduli_fit();
        assert(le@.subrange(0, 32) =~= le_bytes(le_nat(xb@), 32));
        assert(le@.subrange(32, 64) =~= le_bytes(le_nat(yb@), 32));
        lemma_le_bytes_round_trip(le_nat(xb@), 32);
        lemma_le_bytes_round_trip(le_nat(yb@), 32);
    }
    if g1_is_valid(le.as_slice()) {
        Ok(le)
    } else {
        Err(ProofError::EncodingError)
    }
}

/// The little-endian encoding of the G2 point whose coordinates are given as
/// decimal text.
fn parse_g2(x0: &str, y0: &str, x1: &str, y1: &str) -> (r: Result<Vec<u8>, ProofError>)
    ensures
        match g2_coordinates(x0@, y0@, x1@, y1@) {
            Ok((a, b, c, d)) => r matches Ok(v) && v@ == g2_le(a, b, c, d),
            Err(e) => r == Err::<Vec<u8>, ProofError>(e),
        },
        r matches Ok(v) ==> v@.len() == 128,
{
    let ab = match parse_decimal_le(x0) {
        Some(v) => v,
        None => return Err(ProofError::ParseError(0)),
    };
    let bb = match parse_decimal_le(y0) {
        Some(v) => v,
        None => return Err(ProofError::ParseError(1)),
    };
    let cb = match parse_decimal_le(x1) {
        Some(v) => v,
        None => return Err(ProofError::ParseError(2)),
    };
    let db = match parse_decimal_le(y1) {
        Some(v) => v,
        None => return Err(ProofError::ParseError(3)),
    };
    let (mut le, bf, cf, df) = match (
        field_element_le(&ab),
        field_element_le(&bb),
        field_element_le(&cb),
        field_element_le(&db),
    ) {
        (Some(af), Some(bf), Some(cf), Some(df)) => (af, bf, cf, df),
        _ => return Err(ProofError::EncodingError),
    };
    append_range(&mut le, bf.as_slice(), 0, 32);
    append_range(&mut le, cf.as_slice(), 0, 32);
    append_range(&mut le, df.as_slice(), 0, 32);
    assert(bf@.subrange(0, 32) =~= bf@);
    assert(cf@.subrange(0, 32) =~= cf@);
    assert(df@.subrange(0, 32) =~= df@);
    if g2_is_valid(le.as_slice()) {
        Ok(le)
    } else {
        Err(ProofError::EncodingError)
    }
}

impl PreparedProof {
    /// Whether the buffer has its fixed size.
    pub open spec fn wf(&self) -> bool {
        self.raw@.len() == 256
    }

    /// No blocks yet, and a buffer of 256 zero bytes.
    pub fn new() -> (r: Self)
        ensures
            r.wf(),
            r.proof_a@.len() == 0,
            r.proof_b@.len() == 0,
            r.proof_c@.len() == 0,
            r.raw@ == Seq::new(256, |i: int| 0u8),
    {
        let r = PreparedProof {
            proof_a: Vec::new(),
            proof_b: Vec::new(),
            proof_c: Vec::new(),
            raw: vec![0u8; 256],
        };
        assert(r.raw@ =~= Seq::new(256, |i: int| 0u8));
        r
    }

    /// Sets block A from the decimal coordinates of the G1 point A: the
    /// point is negated, and x and y are written big-endian into bytes [0, 64).
    pub fn set_proof_a(&mut self, x: &str, y: &str) -> (r: Result<(), ProofError>)
        requires
            old(self).wf(),
        ensures
            final(self).wf(),
            match g1_coordinates(x@, y@) {
                Ok((a, b)) => {
                    &&& r is Ok
                    &&& final(self).proof_a@.len() == 64
                    &&& final(self).proof_a@ == g1_block(a, neg_fq(b))
                    &&& final(self).raw@ == overwrite(old(self).raw@, 0, final(self).proof_a@)
                    &&& final(self).proof_b == old(self).proof_b
                    &&& final(self).proof_c == old(self).proof_c
                },
                Err(e) => r == Err::<(), ProofError>(e) && *final(self) == *old(self),
            },
    {
        let le = match parse_g1(x, y) {
            Ok(le) => le,
            Err(e) => return Err(e),
        };
        proof {
            lemma_moduli_fit();
            let (xa, yb) = g1_coordinates(x@, y@)->Ok_0;
            lemma_le_bytes_len(xa, 32);
            lemma_le_bytes_len(yb, 32);
            assert(le@.subrange(0, 32) =~= le_bytes(xa, 32));
            assert(le@.subrange(32, 64) =~= le_bytes(yb, 32));
            lemma_le_bytes_round_trip(yb, 32);
        }
        let neg = match g1_negate(le.as_slice()) {
            Some(v) => v,
            None => return Err(ProofError::EncodingError),
        };
        proof {
            let (xa, yb) = g1_coordinates(x@, y@)->Ok_0;
            lemma_le_bytes_of(neg@.subrange(32, 64));
            assert(neg@ =~= neg@.subrange(0, 32) + neg@.subrange(32, 64));
            assert(neg@ == g1_le(xa, neg_fq(yb)));
        }
        let be = swap_whole_chunks(neg.as_slice(), 32);
        write_at(&mut self.raw, 0, be.as_slice());
        self.proof_a = be;
        Ok(())
    }

    /// Sets block C from the decimal coordinates of the G1 point C: x and y
    /// are written big-endian into bytes [192, 256).
    pub fn set_proof_c(&mut self, x: &str, y: &str) -> (r: Result<(), ProofError>)
        requires
            old(self).wf(),
        ensures
            final(self).wf(),
            match g1_coordinates(x@, y@) {
                Ok((a, b)) => {
                    &&& r is Ok
                    &&& final(self).proof_c@.len() == 64
                    &&& final(self).proof_c@ == g1_block(a, b)
                    &&& final(self).raw@ == overwrite(old(self).raw@, 192, final(self).proof_c@)
                    &&& final(self).proof_a == old(self).proof_a
                    &&& final(self).proof_b == old(self).proof_b
                },
                Err(e) => r == Err::<(), ProofError>(e) && *final(self) == *old(self),
            },
    {
        let le = match parse_g1(x, y) {
            Ok(le) => le,
            Err(e) => return Err(e),
        };
        let be = swap_whole_chunks(le.as_slice(), 32);
        write_at(&mut self.raw, 192, be.as_slice());
        self.proof_c = be;
        Ok(())
    }

    /// Sets block B from the decimal coordinates of the G2 point B, whose x
    /// is (x0, y0) and y is (x1, y1): each limb is written big-endian, in the
    /// order x.c1, x.c0, y.c1, y.c0, into bytes [64, 192).
    pub fn set_proof_b(&mut self, x0: &str, y0: &str, x1: &str, y1: &str) -> (r: Result<
        (),
        ProofError,
    >)
        requires
            old(self).wf(),
        ensures
            final(self).wf(),
            match g2_coordinates(x0@, y0@, x1@, y1@) {
                Ok((a, b, c, d)) => {
                    &&& r is Ok
                    &&& final(self).proof_b@.len() == 128
                    &&& final(self).proof_b@ == g2_block(a, b, c, d)
                    &&& final(self).raw@ == overwrite(old(self).raw@, 64, final(self).proof_b@)
                    &&& final(self).proof_a == old(self).proof_a
                    &&& final(self).proof_c == old(self).proof_c
                },
                Err(e) => r == Err::<(), ProofError>(e) && *final(self) == *old(self),
            },
    {
        let le = match parse_g2(x0, y0, x1, y1) {
            Ok(le) => le,
            Err(e) => return Err(e),
        };
        let be = swap_whole_chunks(le.as_slice(), 32);
        let ghost t = swap_chunks(le@, 32);
        let mut out: Vec<u8> = Vec::new();
        append_range(&mut out, be.as_slice(), 32, 64);
        append_range(&mut out, be.as_slice(), 0, 32);
        append_range(&mut out, be.as_slice(), 96, 128);
        append_range(&mut out, be.as_slice(), 64, 96);
        assert(out@ =~= limb(t, 1) + limb(t, 0) + limb(t, 3) + limb(t, 2));
        write_at(&mut self.raw, 64, out.as_slice());
        self.proof_b = out;
        Ok(())
    }
}


/// Whether each coordinate list holds the two entries that are read.
pub open spec fn raw_proof_complete(raw: &RawProof) -> bool {
    &&& raw.pi_a@.len() >= 2
    &&& raw.pi_c@.len() >= 2
    &&& raw.pi_b@.len() >= 2
    &&& raw.pi_b@[0]@.len() >= 2
    &&& raw.pi_b@[1]@.len() >= 2
}

/// The canonical blocks A, B and C of a proof as an outside prover writes
/// it, or the first error met, taking A, then C, then B.
pub open spec fn proof_blocks(raw: &RawProof) -> Result<(Seq<u8>, Seq<u8>, Seq<u8>), ProofError> {
    if !raw_proof_complete(raw) {
        Err(ProofError::MissingCoordinate)
    } else {
        match g1_coordinates(raw.pi_a@[0]@, raw.pi_a@[1]@) {
            Err(e) => Err(e),
            Ok((ax, ay)) => match g1_coordinates(raw.pi_c@[0]@, raw.pi_c@[1]@) {
                Err(e) => Err(e),
                Ok((cx, cy)) => match g2_coordinates(
                    raw.pi_b@[0]@[0]@,
                    raw.pi_b@[0]@[1]@,
                    raw.pi_b@[1]@[0]@,
                    raw.pi_b@[1]@[1]@,
                ) {
                    Err(e) => Err(e),
                    Ok((x0, y0, x1, y1)) => Ok(
                        (g1_block(ax, neg_fq(ay)), g2_block(x0, y0, x1, y1), g1_block(cx, cy)),
                    ),
                },
            },
        }
    }
}

/// Converts a proof as an outside prover writes it into its canonical
/// blocks: A negated, B with its limbs reordered, C as it is; `raw` holds
/// the three blocks one after the other.
pub fn prepare_proofs(raw: &RawProof) -> (r: Result<PreparedProof, ProofError>)
    ensures
        match proof_blocks(raw) {
            Ok((a, b, c)) => r matches Ok(p) && p.proof_a@ == a && p.proof_b@ == b && p.proof_c@
                == c && p.raw@ == a + b + c,
            Err(e) => r is Err && r->Err_0 == e,
        },
{
    if raw.pi_a.len() < 2 || raw.pi_c.len() < 2 || raw.pi_b.len() < 2 || raw.pi_b[0].len() < 2
        || raw.pi_b[1].len() < 2 {
        return Err(ProofError::MissingCoordinate);
    }
    let mut prepared = PreparedProof::new();
    match prepared.set_proof_a(raw.pi_a[0].as_str(), raw.pi_a[1].as_str()) {
        Ok(()) => {},
        Err(e) => return Err(e),
    }
    match prepared.set_proof_c(raw.pi_c[0].as_str(), raw.pi_c[1].as_str()) {
        Ok(()) => {},
        Err(e) => return Err(e),
    }
    match prepared.set_proof_b(
        raw.pi_b[0][0].as_str(),
        raw.pi_b[0][1].as_str(),
        raw.pi_b[1][0].as_str(),
        raw.pi_b[1][1].as_str(),
    ) {
        Ok(()) => {},
        Err(e) => return Err(e),
    }
    proof {
        let a = prepared.proof_a@;
        let b = prepared.proof_b@;
        let c = prepared.proof_c@;
        assert(prepared.raw@ =~= a + b + c);
    }
    Ok(prepared)
}

/// The uncompressed little-endian encoding of the G1 point whose
/// coordinates are given as decimal text: x, then y with the sign flag.
pub fn prepare_g1_point(x_str: &str, y_str: &str) -> (r: Result<Vec<u8>, ProofError>)
    ensures
        match g1_coordinates(x_str@, y_str@) {
            Ok((a, b)) => r matches Ok(v) && v@ == le_bytes(a, 32) + le_bytes(y_with_sign_flag(b), 32),
            Err(e) => r == Err::<Vec<u8>, ProofError>(e),
        },
{
    let le = match parse_g1(x_str, y_str) {
        Ok(le) => le,
        Err(e) => return Err(e),
    };
    proof {
        lemma_moduli_fit();
        let (xa, yb) = g1_coordinates(x_str@, y_str@)->Ok_0;
        lemma_le_bytes_len(xa, 32);
        lemma_le_bytes_len(yb, 32);
        assert(le@.subrange(0, 32) =~= le_bytes(xa, 32));
        assert(le@.subrange(32, 64) =~= le_bytes(yb, 32));
        lemma_le_bytes_round_trip(yb, 32);
    }
    match g1_reencode(le.as_slice()) {
        Some(v) => {
            proof {
                lemma_le_bytes_of(v@.subrange(32, 64));
                assert(v@ =~= v@.subrange(0, 32) + v@.subrange(32, 64));
            }
            Ok(v)
        },
        None => Err(ProofError::EncodingError),
    }
}

/// Reading the A block back and negating its y again gives the block of the
/// point that A was built from, without negation; and the negated point is on
/// the curve whenever the point is, so the second negation succeeds too.
pub proof fn lemma_double_negation(x: nat, y: nat)
    requires
        x < fq_modulus(),
        y < fq_modulus(),
    ensures
        g1_on_curve(x, y) ==> g1_on_curve(x, neg_fq(y)),
        be_nat(g1_block(x, neg_fq(y)).subrange(0, 32)) == x,
        be_nat(g1_block(x, neg_fq(y)).subrange(32, 64)) == neg_fq(y),
        neg_fq(neg_fq(y)) == y,
        g1_block(
            be_nat(g1_block(x, neg_fq(y)).subrange(0, 32)),
            neg_fq(be_nat(g1_block(x, neg_fq(y)).subrange(32, 64))),
        ) == g1_block(x, y),
{
    let p = fq_modulus();
    let ny = neg_fq(y);
    lemma_moduli_fit();
    if y == 0 {
        lemma_mod_self_0(p as int);
        assert(ny == 0);
        assert(neg_fq(ny) == 0);
    } else {
        lemma_small_mod((p - y) as nat, p);
        assert(ny == p - y);
        lemma_small_mod(y, p);
        assert(neg_fq(ny) == y);
        assert((p - y) * (p - y) == p * (p - 2 * y) + y * y) by (nonlinear_arith);
        lemma_mod_multiples_vanish(p - 2 * y, (y * y) as int, p as int);
        assert(ny * ny == (p - y) * (p - y));
    }
    lemma_g1_block_coordinates(x, ny);
}

/// The two halves of a G1 block hold its coordinates, big-endian.
pub proof fn lemma_g1_block_coordinates(x: nat, y: nat)
    requires
        x < fq_modulus(),
        y < fq_modulus(),
    ensures
        g1_block(x, y).len() == 64,
        be_nat(g1_block(x, y).subrange(0, 32)) == x,
        be_nat(g1_block(x, y).subrange(32, 64)) == y,
{
    lemma_moduli_fit();
    lemma_le_bytes_round_trip(x, 32);
    lemma_le_bytes_round_trip(y, 32);
    let le = g1_le(x, y);
    let blk = g1_block(x, y);
    assert(le.subrange(0, 32) =~= le_bytes(x, 32));
    assert(le.subrange(32, 64) =~= le_bytes(y, 32));
    assert(swap_chunks(blk.subrange(0, 32), 32) =~= le.subrange(0, 32)) by {
        assert forall|i: int| 0 <= i < 32 implies #[trigger] swap_chunks(blk.subrange(0, 32), 32)[i]
            == le[i] by {
            assert((31 - i) / 32 == 0 && (31 - i) % 32 == 31 - i);
            assert(i / 32 == 0 && i % 32 == i);
        }
    }
    assert(swap_chunks(blk.subrange(32, 64), 32) =~= le.subrange(32, 64)) by {
        assert forall|i: int| 0 <= i < 32 implies #[trigger] swap_chunks(blk.subrange(32, 64), 32)[i]
            == le[32 + i] by {
            assert((31 - i) / 32 == 0 && (31 - i) % 32 == 31 - i);
            assert((32 + i) / 32 == 1 && (32 + i) % 32 == i);
            assert((63 - i) / 32 == 1 && (63 - i) % 32 == 31 - i);
        }
    }
    lemma_be_nat_swapped(blk.subrange(0, 32));
    lemma_be_nat_swapped(blk.subrange(32, 64));
}

} // verus!
