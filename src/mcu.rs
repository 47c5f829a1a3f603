//! Packed unit status: one 32-bit word per minimal block.
//!
//! Layout of the word:
//! - bits 0..=6: slice number
//! - bit 15: intra flag
//! - bits 16..=22: QP
//! - bit 23: skip flag
//! - bit 24: luma coded-block flag
//! - bit 31: coded flag
//! - bits 24..=27 and 28..=31: log2 width and log2 height, written only by
//!   their own setters (they share bits with the flags above)
use vstd::prelude::*;

verus! {

/// Slice number field.
pub open spec fn sn_of(w: u32) -> u32 {
    w & 0x7F
}

/// Intra flag.
pub open spec fn if_of(w: u32) -> u32 {
    (w >> 15u32) & 1
}

/// QP field.
pub open spec fn qp_of(w: u32) -> u32 {
    (w >> 16u32) & 0x7F
}

/// Skip flag.
pub open spec fn sf_of(w: u32) -> u32 {
    (w >> 23u32) & 1
}

/// Luma coded-block flag.
pub open spec fn cbfl_of(w: u32) -> u32 {
    (w >> 24u32) & 1
}

/// Coded flag.
pub open spec fn cod_of(w: u32) -> u32 {
    (w >> 31u32) & 1
}

/// Log2 width field.
pub open spec fn logw_of(w: u32) -> u32 {
    (w >> 24u32) & 0x0F
}

/// Log2 height field.
pub open spec fn logh_of(w: u32) -> u32 {
    (w >> 28u32) & 0x0F
}

/// The word with its slice number replaced by the low seven bits of `sn`.
pub open spec fn with_sn(w: u32, sn: u32) -> u32 {
    (w & 0xFFFFFF80) | (sn & 0x7F)
}

/// The word with the bits `m` set.
pub open spec fn with_bits(w: u32, m: u32) -> u32 {
    w | m
}

/// The word with the bits `m` cleared.
pub open spec fn without_bits(w: u32, m: u32) -> u32 {
    w & !m
}

/// The word with its QP field replaced by the low seven bits of `qp`.
pub open spec fn with_qp(w: u32, qp: u32) -> u32 {
    (w & 0xFF80_FFFF) | ((qp & 0x7F) << 16u32)
}

/// The combined setter: intra flag `i`, coded flag, slice number and QP at once.
pub open spec fn with_if_cod_sn_qp(w: u32, i: u32, sn: u32, qp: u8) -> u32 {
    (w & 0xFF807F80) | (sn & 0x7F) | ((qp as u32) << 16u32) | (i << 15u32) | 0x8000_0000
}

/// The word with its log2 width replaced by the low four bits of `v`.
pub open spec fn with_logw(w: u32, v: u32) -> u32 {
    (w & 0xF0FFFFFF) | ((v & 0x0F) << 24u32)
}

/// The word with its log2 height replaced by the low four bits of `v`.
pub open spec fn with_logh(w: u32, v: u32) -> u32 {
    (w & 0x0FFFFFFF) | ((v & 0x0F) << 28u32)
}

/// Setting the slice number yields it back and leaves every flag and the QP alone.
pub proof fn lemma_sn_round_trip(w: u32, sn: u32)
    by (bit_vector)
    requires
        sn <= 127,
    ensures
        sn_of(with_sn(w, sn)) == sn,
        with_sn(w, sn) & 0xFFFFFF80 == w & 0xFFFFFF80,
        if_of(with_sn(w, sn)) == if_of(w),
        qp_of(with_sn(w, sn)) == qp_of(w),
        sf_of(with_sn(w, sn)) == sf_of(w),
        cbfl_of(with_sn(w, sn)) == cbfl_of(w),
        cod_of(with_sn(w, sn)) == cod_of(w),
{
}

/// Setting or clearing the intra flag yields it back and leaves the other fields alone.
pub proof fn lemma_if_round_trip(w: u32)
    by (bit_vector)
    ensures
        if_of(with_bits(w, 0x8000)) == 1,
        if_of(without_bits(w, 0x8000)) == 0,
        with_bits(w, 0x8000) & !0x8000u32 == w & !0x8000u32,
        without_bits(w, 0x8000) & !0x8000u32 == w & !0x8000u32,
        sn_of(with_bits(w, 0x8000)) == sn_of(w) && sn_of(without_bits(w, 0x8000)) == sn_of(w),
        qp_of(with_bits(w, 0x8000)) == qp_of(w) && qp_of(without_bits(w, 0x8000)) == qp_of(w),
        sf_of(with_bits(w, 0x8000)) == sf_of(w) && sf_of(without_bits(w, 0x8000)) == sf_of(w),
        cbfl_of(with_bits(w, 0x8000)) == cbfl_of(w) && cbfl_of(without_bits(w, 0x8000))
            == cbfl_of(w),
        cod_of(with_bits(w, 0x8000)) == cod_of(w) && cod_of(without_bits(w, 0x8000)) == cod_of(w),
{
}

/// Setting or clearing the skip flag yields it back and leaves the other fields alone.
pub proof fn lemma_sf_round_trip(w: u32)
    by (bit_vector)
    ensures
        sf_of(with_bits(w, 0x80_0000)) == 1,
        sf_of(without_bits(w, 0x80_0000)) == 0,
        with_bits(w, 0x80_0000) & !0x80_0000u32 == w & !0x80_0000u32,
        without_bits(w, 0x80_0000) & !0x80_0000u32 == w & !0x80_0000u32,
        sn_of(with_bits(w, 0x80_0000)) == sn_of(w) && sn_of(without_bits(w, 0x80_0000)) == sn_of(
            w,
        ),
        if_of(with_bits(w, 0x80_0000)) == if_of(w) && if_of(without_bits(w, 0x80_0000)) == if_of(
            w,
        ),
        qp_of(with_bits(w, 0x80_0000)) == qp_of(w) && qp_of(without_bits(w, 0x80_0000)) == qp_of(
            w,
        ),
        cbfl_of(with_bits(w, 0x80_0000)) == cbfl_of(w) && cbfl_of(without_bits(w, 0x80_0000))
            == cbfl_of(w),
        cod_of(with_bits(w, 0x80_0000)) == cod_of(w) && cod_of(without_bits(w, 0x80_0000))
            == cod_of(w),
{
}

/// Setting or clearing the luma coded-block flag yields it back and leaves the other
/// fields alone.
pub proof fn lemma_cbfl_round_trip(w: u32)
    by (bit_vector)
    ensures
        cbfl_of(with_bits(w, 0x100_0000)) == 1,
        cbfl_of(without_bits(w, 0x100_0000)) == 0,
        with_bits(w, 0x100_0000) & !0x100_0000u32 == w & !0x100_0000u32,
        without_bits(w, 0x100_0000) & !0x100_0000u32 == w & !0x100_0000u32,
        sn_of(with_bits(w, 0x100_0000)) == sn_of(w) && sn_of(without_bits(w, 0x100_0000))
            == sn_of(w),
        if_of(with_bits(w, 0x100_0000)) == if_of(w) && if_of(without_bits(w, 0x100_0000))
            == if_of(w),
        qp_of(with_bits(w, 0x100_0000)) == qp_of(w) && qp_of(without_bits(w, 0x100_0000))
            == qp_of(w),
        sf_of(with_bits(w, 0x100_0000)) == sf_of(w) && sf_of(without_bits(w, 0x100_0000))
            == sf_of(w),
        cod_of(with_bits(w, 0x100_0000)) == cod_of(w) && cod_of(without_bits(w, 0x100_0000))
            == cod_of(w),
{
}

/// Setting or clearing the coded flag yields it back and leaves the other fields alone.
pub proof fn lemma_cod_round_trip(w: u32)
    by (bit_vector)
    ensures
        cod_of(with_bits(w, 0x8000_0000)) == 1,
        cod_of(without_bits(w, 0x8000_0000)) == 0,
        with_bits(w, 0x8000_0000) & 0x7FFF_FFFF == w & 0x7FFF_FFFF,
        without_bits(w, 0x8000_0000) & 0x7FFF_FFFF == w & 0x7FFF_FFFF,
        sn_of(with_bits(w, 0x8000_0000)) == sn_of(w) && sn_of(without_bits(w, 0x8000_0000))
            == sn_of(w),
        if_of(with_bits(w, 0x8000_0000)) == if_of(w) && if_of(without_bits(w, 0x8000_0000))
            == if_of(w),
        qp_of(with_bits(w, 0x8000_0000)) == qp_of(w) && qp_of(without_bits(w, 0x8000_0000))
            == qp_of(w),
        sf_of(with_bits(w, 0x8000_0000)) == sf_of(w) && sf_of(without_bits(w, 0x8000_0000))
            == sf_of(w),
        cbfl_of(with_bits(w, 0x8000_0000)) == cbfl_of(w) && cbfl_of(
            without_bits(w, 0x8000_0000),
        ) == cbfl_of(w),
{
}

/// Setting the QP yields it back; resetting and setting the QP leave the other fields alone.
pub proof fn lemma_qp_round_trip(w: u32, qp: u32)
    by (bit_vector)
    requires
        qp <= 127,
    ensures
        qp_of(without_bits(w, 0x7F_0000)) == 0,
        qp_of(with_qp(w, qp)) == qp,
        with_qp(w, qp) & !0x7F_0000u32 == w & !0x7F_0000u32,
        without_bits(w, 0x7F_0000) & !0x7F_0000u32 == w & !0x7F_0000u32,
        sn_of(with_qp(w, qp)) == sn_of(w) && sn_of(without_bits(w, 0x7F_0000)) == sn_of(w),
        if_of(with_qp(w, qp)) == if_of(w) && if_of(without_bits(w, 0x7F_0000)) == if_of(w),
        sf_of(with_qp(w, qp)) == sf_of(w) && sf_of(without_bits(w, 0x7F_0000)) == sf_of(w),
        cbfl_of(with_qp(w, qp)) == cbfl_of(w) && cbfl_of(without_bits(w, 0x7F_0000)) == cbfl_of(
            w,
        ),
        cod_of(with_qp(w, qp)) == cod_of(w) && cod_of(without_bits(w, 0x7F_0000)) == cod_of(w),
{
}

/// The combined setter yields back the intra flag, the slice number and the QP, sets the
/// coded flag, and keeps the skip flag, the luma coded-block flag and the reserved bits.
pub proof fn lemma_combined_round_trip(w: u32, i: u32, sn: u32, qp: u8)
    by (bit_vector)
    requires
        i <= 1,
        sn <= 127,
        qp <= 127,
    ensures
        if_of(with_if_cod_sn_qp(w, i, sn, qp)) == i,
        sn_of(with_if_cod_sn_qp(w, i, sn, qp)) == sn,
        qp_of(with_if_cod_sn_qp(w, i, sn, qp)) == qp as u32,
        cod_of(with_if_cod_sn_qp(w, i, sn, qp)) == 1,
        sf_of(with_if_cod_sn_qp(w, i, sn, qp)) == sf_of(w),
        cbfl_of(with_if_cod_sn_qp(w, i, sn, qp)) == cbfl_of(w),
        with_if_cod_sn_qp(w, i, sn, qp) & 0x7F80_7F80 == w & 0x7F80_7F80,
{
}

/// The log2 width and height setters yield their values back, leave each other alone, and
/// leave the slice number, the intra flag, the QP and the skip flag alone.
pub proof fn lemma_log2_size_round_trip(w: u32, v: u32)
    by (bit_vector)
    requires
        v <= 15,
    ensures
        logw_of(with_logw(w, v)) == v,
        logh_of(with_logh(w, v)) == v,
        logh_of(with_logw(w, v)) == logh_of(w),
        logw_of(with_logh(w, v)) == logw_of(w),
        with_logw(w, v) & 0xF0FF_FFFF == w & 0xF0FF_FFFF,
        with_logh(w, v) & 0x0FFF_FFFF == w & 0x0FFF_FFFF,
        sn_of(with_logw(w, v)) == sn_of(w) && sn_of(with_logh(w, v)) == sn_of(w),
        if_of(with_logw(w, v)) == if_of(w) && if_of(with_logh(w, v)) == if_of(w),
        qp_of(with_logw(w, v)) == qp_of(w) && qp_of(with_logh(w, v)) == qp_of(w),
        sf_of(with_logw(w, v)) == sf_of(w) && sf_of(with_logh(w, v)) == sf_of(w),
{
}

/// Packed status word of one minimal block.
#[derive(Clone, Copy, Debug, PartialEq, Eq, Structural)]
pub struct MCU(pub u32);

impl Default for MCU {
    fn default() -> (r: MCU)
        ensures
            r.0 == 0,
    {
        MCU(0)
    }
}

impl MCU {
    /// Sets the slice number.
    #[inline]
    pub fn SET_SN(&mut self, sn: u32)
        ensures
            final(self).0 == with_sn(old(self).0, sn),
            sn_of(final(self).0) == sn & 0x7F,
            final(self).0 & 0xFFFFFF80 == old(self).0 & 0xFFFFFF80,
    {
        proof {
            let w = self.0;
            assert(sn_of(with_sn(w, sn)) == sn & 0x7F && with_sn(w, sn) & 0xFFFFFF80 == w
                & 0xFFFFFF80) by (bit_vector);
        }
        self.0 = (self.0 & 0xFFFFFF80) | (sn & 0x7F);
    }

    /// The slice number.
    #[inline]
    pub fn GET_SN(&self) -> (r: u32)
        ensures
            r == sn_of(self.0),
    {
        self.0 & 0x7F
    }

    /// Sets the intra flag.
    #[inline]
    pub fn SET_IF(&mut self)
        ensures
            final(self).0 == with_bits(old(self).0, 0x8000),
            if_of(final(self).0) == 1,
    {
        proof {
            lemma_if_round_trip(self.0);
        }
        self.0 = self.0 | 0x8000;
    }

    /// The intra flag.
    #[inline]
    pub fn GET_IF(&self) -> (r: u32)
        ensures
            r == if_of(self.0),
    {
        (self.0 >> 15) & 1
    }

    /// Clears the intra flag.
    #[inline]
    pub fn CLR_IF(&mut self)
        ensures
            final(self).0 == without_bits(old(self).0, 0x8000),
            if_of(final(self).0) == 0,
    {
        proof {
            let w = self.0;
            lemma_if_round_trip(w);
            assert(w & 0xFFFF7FFF == without_bits(w, 0x8000)) by (bit_vector);
        }
        self.0 = self.0 & 0xFFFF7FFF;
    }

    /// Sets the QP field to the low seven bits of `qp`.
    #[inline]
    pub fn SET_QP(&mut self, qp: u32)
        ensures
            final(self).0 == with_qp(old(self).0, qp),
            qp_of(final(self).0) == qp & 0x7F,
            final(self).0 & 0xFF80_FFFF == old(self).0 & 0xFF80_FFFF,
    {
        proof {
            let w = self.0;
            assert((qp & 0x7F) <= 127 && with_qp(w, qp) == with_qp(w, qp & 0x7F)) by (bit_vector);
            lemma_qp_round_trip(w, qp & 0x7F);
            assert(with_qp(w, qp) & 0xFF80_FFFF == w & 0xFF80_FFFF) by (bit_vector);
        }
        self.0 = (self.0 & 0xFF80_FFFF) | ((qp & 0x7F) << 16);
    }

    /// The QP.
    #[inline]
    pub fn GET_QP(&self) -> (r: u32)
        ensures
            r == qp_of(self.0),
    {
        (self.0 >> 16) & 0x7F
    }

    /// Clears the QP field.
    #[inline]
    pub fn RESET_QP(&mut self)
        ensures
            final(self).0 == without_bits(old(self).0, 0x7F_0000),
            qp_of(final(self).0) == 0,
    {
        proof {
            let w = self.0;
            lemma_qp_round_trip(w, 0);
            assert(w & 0xFF80_FFFF == without_bits(w, 0x7F_0000)) by (bit_vector);
        }
        self.0 = self.0 & 0xFF80_FFFF;
    }

    /// Sets the skip flag.
    #[inline]
    pub fn SET_SF(&mut self)
        ensures
            final(self).0 == with_bits(old(self).0, 0x80_0000),
            sf_of(final(self).0) == 1,
    {
        proof {
            lemma_sf_round_trip(self.0);
        }
        self.0 = self.0 | 0x80_0000;
    }

    /// The skip flag.
    #[inline]
    pub fn GET_SF(&self) -> (r: u32)
        ensures
            r == sf_of(self.0),
    {
        (self.0 >> 23) & 1
    }

    /// Clears the skip flag.
    #[inline]
    pub fn CLR_SF(&mut self)
        ensures
            final(self).0 == without_bits(old(self).0, 0x80_0000),
            sf_of(final(self).0) == 0,
    {
        proof {
            let w = self.0;
            lemma_sf_round_trip(w);
            assert(w & 0xFF7F_FFFF == without_bits(w, 0x80_0000)) by (bit_vector);
        }
        self.0 = self.0 & 0xFF7F_FFFF;
    }

    /// Sets the luma coded-block flag.
    #[inline]
    pub fn SET_CBFL(&mut self)
        ensures
            final(self).0 == with_bits(old(self).0, 0x100_0000),
            cbfl_of(final(self).0) == 1,
    {
        proof {
            lemma_cbfl_round_trip(self.0);
        }
        self.0 = self.0 | 0x100_0000;
    }

    /// The luma coded-block flag.
    #[inline]
    pub fn GET_CBFL(&self) -> (r: u32)
        ensures
            r == cbfl_of(self.0),
    {
        (self.0 >> 24) & 1
    }

    /// Clears the luma coded-block flag.
    #[inline]
    pub fn CLR_CBFL(&mut self)
        ensures
            final(self).0 == without_bits(old(self).0, 0x100_0000),
            cbfl_of(final(self).0) == 0,
    {
        proof {
            let w = self.0;
            lemma_cbfl_round_trip(w);
            assert(w & 0xFEFF_FFFF == without_bits(w, 0x100_0000)) by (bit_vector);
        }
        self.0 = self.0 & 0xFEFF_FFFF;
    }

    /// Sets the coded flag.
    #[inline]
    pub fn SET_COD(&mut self)
        ensures
            final(self).0 == with_bits(old(self).0, 0x8000_0000),
            cod_of(final(self).0) == 1,
    {
        proof {
            lemma_cod_round_trip(self.0);
        }
        self.0 = self.0 | 0x8000_0000;
    }

    /// The coded flag.
    #[inline]
    pub fn GET_COD(&self) -> (r: u32)
        ensures
            r == cod_of(self.0),
    {
        (self.0 >> 31) & 1
    }

    /// Clears the coded flag.
    #[inline]
    pub fn CLR_COD(&mut self)
        ensures
            final(self).0 == without_bits(old(self).0, 0x8000_0000),
            cod_of(final(self).0) == 0,
    {
        proof {
            let w = self.0;
            lemma_cod_round_trip(w);
            assert(w & 0x7FFFFFFF == without_bits(w, 0x8000_0000)) by (bit_vector);
        }
        self.0 = self.0 & 0x7FFFFFFF;
    }

    /// Sets the intra flag to `i`, the slice number, the QP and the coded flag at once.
    #[inline]
    pub fn SET_IF_COD_SN_QP(&mut self, i: u32, sn: u32, qp: u8)
        ensures
            final(self).0 == with_if_cod_sn_qp(old(self).0, i, sn, qp),
            i <= 1 && sn <= 127 && qp <= 127 ==> {
                &&& if_of(final(self).0) == i
                &&& sn_of(final(self).0) == sn
                &&& qp_of(final(self).0) == qp as u32
                &&& cod_of(final(self).0) == 1
                &&& final(self).0 & 0x7F80_7F80 == old(self).0 & 0x7F80_7F80
            },
    {
        proof {
            if i <= 1 && sn <= 127 && qp <= 127 {
                lemma_combined_round_trip(self.0, i, sn, qp);
            }
        }
        self.0 = (self.0 & 0xFF807F80) | (sn & 0x7F) | ((qp as u32) << 16) | (i << 15)
            | 0x8000_0000;
    }

    /// Whether the block is coded and not intra.
    #[inline]
    pub fn IS_COD_NIF(&self) -> (r: bool)
        ensures
            r == (cod_of(self.0) == 1 && if_of(self.0) == 0),
    {
        let w = self.0;
        proof {
            assert((((w >> 15u32) & 0x10001) == 0x10000) == (cod_of(w) == 1 && if_of(w) == 0))
                by (bit_vector);
        }
        ((self.0 >> 15) & 0x10001) == 0x10000
    }

    /// Sets the log2 width field.
    #[inline]
    pub fn SET_LOGW(&mut self, v: u32)
        ensures
            final(self).0 == with_logw(old(self).0, v),
            logw_of(final(self).0) == v & 0x0F,
    {
        proof {
            let w = self.0;
            assert((v & 0x0F) <= 15 && with_logw(w, v) == with_logw(w, v & 0x0F)) by (bit_vector);
            lemma_log2_size_round_trip(w, v & 0x0F);
        }
        self.0 = (self.0 & 0xF0FFFFFF) | ((v) & 0x0F) << 24;
    }

    /// Sets the log2 height field.
    #[inline]
    pub fn SET_LOGH(&mut self, v: u32)
        ensures
            final(self).0 == with_logh(old(self).0, v),
            logh_of(final(self).0) == v & 0x0F,
    {
        proof {
            let w = self.0;
            assert((v & 0x0F) <= 15 && with_logh(w, v) == with_logh(w, v & 0x0F)) by (bit_vector);
            lemma_log2_size_round_trip(w, v & 0x0F);
        }
        self.0 = (self.0 & 0x0FFFFFFF) | ((v) & 0x0F) << 28;
    }

    /// The log2 width field.
    #[inline]
    pub fn GET_LOGW(&self) -> (r: u32)
        ensures
            r == logw_of(self.0),
    {
        (self.0 >> 24) & 0x0F
    }

    /// The log2 height field.
    #[inline]
    pub fn GET_LOGH(&self) -> (r: u32)
        ensures
            r == logh_of(self.0),
    {
        (self.0 >> 28) & 0x0F
    }
}

} // verus!
