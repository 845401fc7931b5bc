use vstd::prelude::*;

use byteorder::{ByteOrder, LittleEndian};

verus! {

/// One STL facet as the bit patterns of twelve single-precision numbers: the
/// normal, then the three corners, each as x, y, z.
pub type Facet = [u32; 12];

/// The four little-endian bytes of `n`.
pub open spec fn le_u32(n: u32) -> Seq<u8> {
    seq![
        (n % 0x100) as u8,
        ((n / 0x100) % 0x100) as u8,
        ((n / 0x1_0000) % 0x100) as u8,
        (n / 0x100_0000) as u8,
    ]
}

/// The two little-endian bytes of `n`.
pub open spec fn le_u16(n: u16) -> Seq<u8> {
    seq![(n % 0x100) as u8, (n / 0x100) as u8]
}

/// The words of `w`, each as four little-endian bytes, in order.
pub open spec fn words_le(w: Seq<u32>) -> Seq<u8>
    decreases w.len(),
{
    if w.len() == 0 {
        Seq::empty()
    } else {
        words_le(w.drop_last()) + le_u32(w.last())
    }
}

/// The 50-byte record of one facet: its twelve words, then an attribute byte
/// count of zero.
pub open spec fn facet_record(f: Facet) -> Seq<u8> {
    words_le(f@) + le_u16(0)
}

/// The records of all facets, in order.
pub open spec fn facet_records(fs: Seq<Facet>) -> Seq<u8>
    decreases fs.len(),
{
    if fs.len() == 0 {
        Seq::empty()
    } else {
        facet_records(fs.drop_last()) + facet_record(fs.last())
    }
}

/// A binary STL file: an 80-byte header of zeros, the facet count as a
/// little-endian 32-bit number, then one record per facet.
pub open spec fn stl_file(fs: Seq<Facet>) -> Seq<u8> {
    Seq::new(80, |i: int| 0u8) + le_u32(fs.len() as u32) + facet_records(fs)
}

/// Relies on byteorder's `LittleEndian::write_u32`: it stores the four bytes of
/// `n`, least significant first, at the start of the buffer.
#[verifier::external_body]
fn u32_le_bytes(n: u32) -> (r: [u8; 4])
    ensures
        r@ == le_u32(n),
{
    let mut buf = [0u8; 4];
    LittleEndian::write_u32(&mut buf, n);
    buf
}

/// Relies on byteorder's `LittleEndian::write_u16`: it stores the two bytes of
/// `n`, least significant first, at the start of the buffer.
#[verifier::external_body]
fn u16_le_bytes(n: u16) -> (r: [u8; 2])
    ensures
        r@ == le_u16(n),
{
    let mut buf = [0u8; 2];
    LittleEndian::write_u16(&mut buf, n);
    buf
}

fn push_u32(out: &mut Vec<u8>, n: u32)
    ensures
        final(out)@ == old(out)@ + le_u32(n),
{
    let b = u32_le_bytes(n);
    out.push(b[0]);
    out.push(b[1]);
    out.push(b[2]);
    out.push(b[3]);
    assert(final(out)@ =~= old(out)@ + le_u32(n));
}

proof fn lemma_records_len(fs: Seq<Facet>)
    ensures
        facet_records(fs).len() == 50 * fs.len(),
    decreases fs.len(),
{
    if fs.len() > 0 {
        lemma_records_len(fs.drop_last());
        lemma_words_len(fs.last()@);
    }
}

proof fn lemma_words_len(w: Seq<u32>)
    ensures
        words_le(w).len() == 4 * w.len(),
    decreases w.len(),
{
    if w.len() > 0 {
        lemma_words_len(w.drop_last());
    }
}

/// Encodes facets in the binary STL layout.
pub fn encode_stl(facets: &Vec<Facet>) -> (r: Vec<u8>)
    requires
        facets@.len() <= u32::MAX,
    ensures
        r@ == stl_file(facets@),
        r@.len() == 84 + 50 * facets@.len(),
{
    let mut out: Vec<u8> = Vec::new();
    let mut i: usize = 0;
    while i < 80
        invariant
            i <= 80,
            out@ == Seq::new(i as nat, |k: int| 0u8),
        decreases 80 - i,
    {
        out.push(0u8);
        i = i + 1;
        assert(out@ =~= Seq::new(i as nat, |k: int| 0u8));
    }
    push_u32(&mut out, facets.len() as u32);
    let ghost head = out@;
    let mut f: usize = 0;
    while f < facets.len()
        invariant
            head == Seq::new(80, |k: int| 0u8) + le_u32(facets@.len() as u32),
            f <= facets@.len(),
            out@ == head + facet_records(facets@.take(f as int)),
        decreases facets@.len() - f,
    {
        let facet = facets[f];
        let ghost before = out@;
        let mut w: usize = 0;
        while w < 12
            invariant
                w <= 12,
                out@ == before + words_le(facet@.take(w as int)),
            decreases 12 - w,
        {
            push_u32(&mut out, facet[w]);
            proof {
                let t = facet@.take(w + 1);
                assert(t.drop_last() =~= facet@.take(w as int));
            }
            w = w + 1;
        }
        let z = u16_le_bytes(0);
        out.push(z[0]);
        out.push(z[1]);
        proof {
            assert(facet@.take(12) =~= facet@);
            let t = facets@.take(f + 1);
            assert(t.drop_last() =~= facets@.take(f as int));
            assert(out@ =~= head + facet_records(t));
        }
        f = f + 1;
    }
    proof {
        assert(facets@.take(facets@.len() as int) =~= facets@);
        lemma_records_len(facets@);
    }
    out
}

} // verus!
