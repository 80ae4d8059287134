//! Ogg pages: one packet to a page, with its checksum.

use vstd::prelude::*;

use crate::text::owned;

verus! {

// ----------------------------------------------------------- checksum
/// One bit further in a division by the polynomial of Ogg.
pub open spec fn crc_bit(crc: u32) -> u32 {
    if crc & 0x8000_0000 != 0 {
        (crc << 1) ^ 0x04c1_1db7
    } else {
        crc << 1
    }
}

/// Some bits further.
pub open spec fn crc_bits(crc: u32, bits: nat) -> u32
    decreases bits,
{
    if bits == 0 {
        crc
    } else {
        crc_bit(crc_bits(crc, (bits - 1) as nat))
    }
}

/// The checksum of some bytes: the remainder of their division by the
/// polynomial, highest bit first, from zero and without a final change.
pub open spec fn crc_of(bytes: Seq<u8>) -> u32
    decreases bytes.len(),
{
    if bytes.len() == 0 {
        0
    } else {
        crc_bits(crc_of(bytes.drop_last()) ^ ((bytes.last() as u32) << 24), 8)
    }
}

/// The checksum of some bytes.
pub fn ogg_crc(bytes: &[u8]) -> (r: u32)
    ensures
        r == crc_of(bytes@),
{
    let mut crc: u32 = 0;
    let mut i: usize = 0;
    assert(bytes@.take(0) =~= Seq::empty());
    while i < bytes.len()
        invariant
            i <= bytes@.len(),
            crc == crc_of(bytes@.take(i as int)),
        decreases bytes@.len() - i,
    {
        let ghost before = crc;
        assert(bytes@.take(i + 1).drop_last() =~= bytes@.take(i as int));
        assert(bytes@.take(i + 1).last() == bytes@[i as int]);
        crc = crc ^ ((bytes[i] as u32) << 24);
        let ghost start = crc;
        let mut k: u32 = 0;
        while k < 8
            invariant
                k <= 8,
                crc == crc_bits(start, k as nat),
            decreases 8 - k,
        {
            crc = if crc & 0x8000_0000 != 0 {
                (crc << 1) ^ 0x04c1_1db7
            } else {
                crc << 1
            };
            k += 1;
        }
        i += 1;
    }
    assert(bytes@.take(i as int) =~= bytes@);
    crc
}

// ----------------------------------------------------------- numbers
/// A number in so many bytes, the lowest first.
pub open spec fn le_bytes(n: nat, count: nat) -> Seq<u8>
    decreases count,
{
    if count == 0 {
        Seq::empty()
    } else {
        seq![(n % 256) as u8] + le_bytes(n / 256, (count - 1) as nat)
    }
}

/// Adds a number in so many bytes, the lowest first.
pub fn push_le(out: &mut Vec<u8>, n: u64, count: usize)
    ensures
        final(out)@ == old(out)@ + le_bytes(n as nat, count as nat),
{
    let ghost start = out@;
    let ghost want = le_bytes(n as nat, count as nat);
    let mut rest: u64 = n;
    let mut left: usize = count;
    assert(start + le_bytes(n as nat, count as nat) =~= start + want);
    while left > 0
        invariant
            out@ + le_bytes(rest as nat, left as nat) == start + want,
        decreases left,
    {
        let ghost tail = le_bytes((rest / 256) as nat, (left - 1) as nat);
        let ghost before = out@;
        let b: u8 = (rest % 256) as u8;
        out.push(b);
        assert(before + (seq![b] + tail) =~= before.push(b) + tail);
        rest = rest / 256;
        left -= 1;
    }
    assert(out@ + le_bytes(rest as nat, 0) =~= out@);
}

/// Appends bytes.
pub fn push_all(out: &mut Vec<u8>, bytes: &[u8])
    ensures
        final(out)@ == old(out)@ + bytes@,
{
    let ghost start = out@;
    let mut i: usize = 0;
    assert(start + bytes@.take(0) =~= start);
    while i < bytes.len()
        invariant
            i <= bytes@.len(),
            out@ == start + bytes@.take(i as int),
        decreases bytes@.len() - i,
    {
        out.push(bytes[i]);
        assert(start + bytes@.take(i + 1) =~= (start + bytes@.take(i as int)).push(
            bytes@[i as int],
        ));
        i += 1;
    }
    assert(bytes@.take(i as int) =~= bytes@);
}

// ----------------------------------------------------------- pages
/// The bytes with which a page begins.
pub open spec fn capture() -> Seq<u8> {
    seq![0x4f, 0x67, 0x67, 0x53]
}

/// The lengths of the pieces of a packet: pieces of 255 bytes, and a last one
/// that is shorter.
pub open spec fn lacing(packet_bytes: nat) -> Seq<u8> {
    Seq::new((packet_bytes / 255) as nat, |i: int| 255u8).push((packet_bytes % 255) as u8)
}

/// A page fits one packet of so many bytes.
pub open spec fn fits_page(packet_bytes: nat) -> bool {
    packet_bytes / 255 + 1 <= 255
}

/// A page before its checksum.
pub open spec fn page_head(granule: u64, serial: u32, sequence: u32, flags: u8) -> Seq<u8> {
    capture() + seq![0u8, flags] + le_bytes(granule as nat, 8) + le_bytes(serial as nat, 4)
        + le_bytes(sequence as nat, 4)
}

/// A page behind its checksum.
pub open spec fn page_tail(packet: Seq<u8>) -> Seq<u8> {
    seq![(packet.len() / 255 + 1) as u8] + lacing(packet.len()) + packet
}

/// The page of a packet. Its checksum is that of the page with zero in the
/// place of the checksum.
pub open spec fn page_of(
    packet: Seq<u8>,
    granule: u64,
    serial: u32,
    sequence: u32,
    flags: u8,
) -> Seq<u8> {
    let head = page_head(granule, serial, sequence, flags);
    let crc = crc_of(head + le_bytes(0, 4) + page_tail(packet));
    head + le_bytes(crc as nat, 4) + page_tail(packet)
}

fn push_tail(out: &mut Vec<u8>, packet: &[u8])
    requires
        fits_page(packet@.len()),
    ensures
        final(out)@ == old(out)@ + page_tail(packet@),
{
    let ghost start = out@;
    let full: usize = packet.len() / 255;
    out.push((full + 1) as u8);
    let ghost counted = out@;
    let mut i: usize = 0;
    assert(counted + Seq::new(0, |k: int| 255u8) =~= counted);
    while i < full
        invariant
            i <= full,
            out@ == counted + Seq::new(i as nat, |k: int| 255u8),
        decreases full - i,
    {
        out.push(255);
        assert(counted + Seq::new((i + 1) as nat, |k: int| 255u8) =~= (counted + Seq::new(
            i as nat,
            |k: int| 255u8,
        )).push(255));
        i += 1;
    }
    out.push((packet.len() % 255) as u8);
    assert(out@ =~= counted + lacing(packet@.len()));
    push_all(out, packet);
    assert(out@ =~= start + page_tail(packet@));
}

fn page_with(
    packet: &[u8],
    granule: u64,
    serial: u32,
    sequence: u32,
    flags: u8,
    checksum: u32,
) -> (r: Vec<u8>)
    requires
        fits_page(packet@.len()),
    ensures
        r@ == page_head(granule, serial, sequence, flags) + le_bytes(checksum as nat, 4)
            + page_tail(packet@),
{
    let mut page: Vec<u8> = Vec::new();
    page.push(0x4f);
    page.push(0x67);
    page.push(0x67);
    page.push(0x53);
    page.push(0);
    page.push(flags);
    assert(page@ =~= capture() + seq![0u8, flags]);
    push_le(&mut page, granule, 8);
    push_le(&mut page, serial as u64, 4);
    push_le(&mut page, sequence as u64, 4);
    push_le(&mut page, checksum as u64, 4);
    push_tail(&mut page, packet);
    page
}

/// Adds the page of a packet, where a page fits it.
pub fn append_ogg_page(
    output: &mut Vec<u8>,
    packet: &[u8],
    granule: u64,
    serial: u32,
    sequence: u32,
    flags: u8,
) -> (r: Result<(), String>)
    ensures
        match r {
            Ok(_) => fits_page(packet@.len()) && final(output)@ == old(output)@ + page_of(
                packet@,
                granule,
                serial,
                sequence,
                flags,
            ),
            Err(e) => !fits_page(packet@.len()) && final(output)@ == old(output)@ && e@
                == "Opus packet is too large for one Ogg page"@,
        },
{
    if packet.len() / 255 >= 255 {
        return Err(owned("Opus packet is too large for one Ogg page"));
    }
    let blank = page_with(packet, granule, serial, sequence, flags, 0);
    let checksum: u32 = ogg_crc(blank.as_slice());
    let page = page_with(packet, granule, serial, sequence, flags, checksum);
    push_all(output, page.as_slice());
    Ok(())
}

// ----------------------------------------------------------- laws
/// The sum of some lengths.
pub open spec fn laced_bytes(lengths: Seq<u8>) -> nat
    decreases lengths.len(),
{
    if lengths.len() == 0 {
        0
    } else {
        laced_bytes(lengths.drop_last()) + lengths.last() as nat
    }
}

proof fn lemma_full_pieces(n: nat)
    ensures
        laced_bytes(Seq::new(n, |i: int| 255u8)) == 255 * n,
    decreases n,
{
    if n > 0 {
        lemma_full_pieces((n - 1) as nat);
        assert(Seq::new(n, |i: int| 255u8).drop_last() =~= Seq::new(
            (n - 1) as nat,
            |i: int| 255u8,
        ));
    }
}

/// The lengths of the pieces add up to the packet, and the last piece is short,
/// so that the packet ends with its page.
pub proof fn pieces_make_the_packet(packet_bytes: nat)
    ensures
        laced_bytes(lacing(packet_bytes)) == packet_bytes,
        lacing(packet_bytes).last() < 255,
        lacing(packet_bytes).len() == packet_bytes / 255 + 1,
{
    let full = Seq::new((packet_bytes / 255) as nat, |i: int| 255u8);
    lemma_full_pieces((packet_bytes / 255) as nat);
    assert(lacing(packet_bytes).drop_last() =~= full);
}

proof fn lemma_le_length(n: nat, count: nat)
    ensures
        le_bytes(n, count).len() == count,
    decreases count,
{
    if count > 0 {
        lemma_le_length(n / 256, (count - 1) as nat);
    }
}

/// A page begins with the capture pattern and ends with its packet; where the
/// checksum stands is fixed, and the checksum is that of the page with zero in
/// its place.
pub proof fn pages_carry_their_checksum(
    packet: Seq<u8>,
    granule: u64,
    serial: u32,
    sequence: u32,
    flags: u8,
)
    ensures
        ({
            let page = page_of(packet, granule, serial, sequence, flags);
            let blank = page.take(22) + le_bytes(0, 4) + page.skip(26);
            &&& page.len() == 27 + packet.len() / 255 + 1 + packet.len()
            &&& page.take(4) == capture()
            &&& page.subrange(22, 26) == le_bytes(crc_of(blank) as nat, 4)
            &&& page.skip(page.len() - packet.len()) == packet
        }),
{
    let head = page_head(granule, serial, sequence, flags);
    let tail = page_tail(packet);
    lemma_le_length(granule as nat, 8);
    lemma_le_length(serial as nat, 4);
    lemma_le_length(sequence as nat, 4);
    lemma_le_length(0, 4);
    assert(head.len() == 22);
    let crc = crc_of(head + le_bytes(0, 4) + tail);
    lemma_le_length(crc as nat, 4);
    let page = page_of(packet, granule, serial, sequence, flags);
    assert(page.take(22) =~= head);
    assert(page.skip(26) =~= tail);
    assert(page.take(4) =~= capture());
    assert(page.subrange(22, 26) =~= le_bytes(crc as nat, 4));
    assert(page.skip(page.len() - packet.len()) =~= packet);
}

/// A number of four bytes is written with its lowest byte first.
pub proof fn the_lowest_byte_comes_first(n: nat)
    ensures
        le_bytes(n, 4) == seq![
            (n % 256) as u8,
            (n / 256 % 256) as u8,
            (n / 65536 % 256) as u8,
            (n / 16777216 % 256) as u8,
        ],
        le_bytes(n, 2) == seq![(n % 256) as u8, (n / 256 % 256) as u8],
{
    reveal_with_fuel(le_bytes, 5);
    assert(n / 256 / 256 == n / 65536);
    assert(n / 256 / 256 / 256 == n / 16777216);
    assert(le_bytes(n, 4) =~= seq![
        (n % 256) as u8,
        (n / 256 % 256) as u8,
        (n / 65536 % 256) as u8,
        (n / 16777216 % 256) as u8,
    ]);
    assert(le_bytes(n, 2) =~= seq![(n % 256) as u8, (n / 256 % 256) as u8]);
}

/// A page names its flags, its time, its stream and its number at their places,
/// and how many pieces its packet has.
pub proof fn pages_name_their_place(
    packet: Seq<u8>,
    granule: u64,
    serial: u32,
    sequence: u32,
    flags: u8,
)
    requires
        packet.len() / 255 + 1 <= 255,
    ensures
        ({
            let page = page_of(packet, granule, serial, sequence, flags);
            &&& page[0] == 79 && page[1] == 103 && page[2] == 103 && page[3] == 83
            &&& page[4] == 0
            &&& page[5] == flags
            &&& page.subrange(6, 14) == le_bytes(granule as nat, 8)
            &&& page.subrange(14, 18) == le_bytes(serial as nat, 4)
            &&& page.subrange(18, 22) == le_bytes(sequence as nat, 4)
            &&& page[26] as int == packet.len() / 255 + 1
        }),
{
    lemma_le_length(granule as nat, 8);
    lemma_le_length(serial as nat, 4);
    lemma_le_length(sequence as nat, 4);
    lemma_le_length(0, 4);
    let head = page_head(granule, serial, sequence, flags);
    let crc = crc_of(head + le_bytes(0, 4) + page_tail(packet));
    lemma_le_length(crc as nat, 4);
    let page = page_of(packet, granule, serial, sequence, flags);
    assert(page.subrange(6, 14) =~= le_bytes(granule as nat, 8));
    assert(page.subrange(14, 18) =~= le_bytes(serial as nat, 4));
    assert(page.subrange(18, 22) =~= le_bytes(sequence as nat, 4));
    assert(page[26] == page_tail(packet)[0]);
}

} // verus!
