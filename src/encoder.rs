use reed_solomon::Encoder;
use vstd::prelude::*;

verus! {

/// Why a message cannot be turned into a symbol.
#[derive(Clone, Copy, Debug, PartialEq, Eq, Structural)]
pub enum QrError {
    /// The message does not fit in the largest supported version.
    MessageTooLong,
    /// The version would need more than one error-correction block.
    UnsupportedLayout,
}

/// The largest version that symbols are built for.
pub const MAX_VERSION: usize = 2;

/// The largest version whose layout the table below describes.
pub const TABLE_VERSIONS: usize = 10;

/// Whether the table describes version `version`.
pub open spec fn known_version(version: int) -> bool {
    1 <= version <= TABLE_VERSIONS
}

/// Entry `version` of a table indexed from version 1; 0 outside it.
pub open spec fn table_entry(t: Seq<int>, version: int) -> int {
    if 1 <= version <= t.len() { t[version - 1] } else { 0 }
}

/// Bytes a version holds at level Q; a message fits while it is shorter.
pub open spec fn capacity(version: int) -> int {
    table_entry(seq![11, 20, 32, 46, 60, 74, 86, 108, 130, 151], version)
}

/// All codewords (data and parity) of a version at level Q.
pub open spec fn total_codewords(version: int) -> int {
    table_entry(seq![26, 44, 70, 100, 134, 172, 196, 242, 292, 346], version)
}

/// Parity codewords of a version at level Q, over all its blocks.
pub open spec fn parity_codewords(version: int) -> int {
    table_entry(seq![13, 22, 36, 52, 72, 96, 108, 132, 160, 192], version)
}

/// Error-correction blocks of a version at level Q.
pub open spec fn ecc_blocks(version: int) -> int {
    table_entry(seq![1, 1, 2, 2, 4, 4, 6, 6, 8, 8], version)
}

/// Data codewords of a version: all codewords but the parity ones.
pub open spec fn data_codewords_len(version: int) -> int {
    total_codewords(version) - parity_codewords(version)
}

/// Whether symbols are built for a version.
pub open spec fn valid_version(version: int) -> bool {
    1 <= version <= MAX_VERSION
}

/// The smallest version that symbols are built for whose capacity exceeds
/// `len`, if any.
pub open spec fn version_for(len: int) -> Option<int> {
    if len < capacity(1) {
        Some(1)
    } else if len < capacity(2) {
        Some(2)
    } else {
        None
    }
}

/// Bytes that a version holds at level Q.
pub fn capacity_of(version: usize) -> (r: usize)
    requires
        known_version(version as int),
    ensures
        r == capacity(version as int),
{
    let t: [usize; 10] = [11, 20, 32, 46, 60, 74, 86, 108, 130, 151];
    let ghost spec_t: Seq<int> = seq![11, 20, 32, 46, 60, 74, 86, 108, 130, 151];
    assert(forall|i: int| 0 <= i < 10 ==> t@[i] as int == #[trigger] spec_t[i]) by {
        assert(t@ =~= seq![11usize, 20usize, 32usize, 46usize, 60usize, 74usize, 86usize, 108usize, 130usize, 151usize]);
    }
    t[version - 1]
}

/// All codewords of a version at level Q.
pub fn total_codewords_of(version: usize) -> (r: usize)
    requires
        known_version(version as int),
    ensures
        r == total_codewords(version as int),
{
    let t: [usize; 10] = [26, 44, 70, 100, 134, 172, 196, 242, 292, 346];
    let ghost spec_t: Seq<int> = seq![26, 44, 70, 100, 134, 172, 196, 242, 292, 346];
    assert(forall|i: int| 0 <= i < 10 ==> t@[i] as int == #[trigger] spec_t[i]) by {
        assert(t@ =~= seq![26usize, 44usize, 70usize, 100usize, 134usize, 172usize, 196usize, 242usize, 292usize, 346usize]);
    }
    t[version - 1]
}

/// Parity codewords of a version at level Q.
pub fn parity_codewords_of(version: usize) -> (r: usize)
    requires
        known_version(version as int),
    ensures
        r == parity_codewords(version as int),
{
    let t: [usize; 10] = [13, 22, 36, 52, 72, 96, 108, 132, 160, 192];
    let ghost spec_t: Seq<int> = seq![13, 22, 36, 52, 72, 96, 108, 132, 160, 192];
    assert(forall|i: int| 0 <= i < 10 ==> t@[i] as int == #[trigger] spec_t[i]) by {
        assert(t@ =~= seq![13usize, 22usize, 36usize, 52usize, 72usize, 96usize, 108usize, 132usize, 160usize, 192usize]);
    }
    t[version - 1]
}

/// Error-correction blocks of a version at level Q.
pub fn ecc_blocks_of(version: usize) -> (r: usize)
    requires
        known_version(version as int),
    ensures
        r == ecc_blocks(version as int),
{
    let t: [usize; 10] = [1, 1, 2, 2, 4, 4, 6, 6, 8, 8];
    let ghost spec_t: Seq<int> = seq![1, 1, 2, 2, 4, 4, 6, 6, 8, 8];
    assert(forall|i: int| 0 <= i < 10 ==> t@[i] as int == #[trigger] spec_t[i]) by {
        assert(t@ =~= seq![1usize, 1usize, 2usize, 2usize, 4usize, 4usize, 6usize, 6usize, 8usize, 8usize]);
    }
    t[version - 1]
}

/// Picks the smallest version whose capacity exceeds the message length.
pub fn select_version(len: usize) -> (r: Result<usize, QrError>)
    ensures
        match version_for(len as int) {
            Some(v) => r == Ok::<usize, QrError>(v as usize),
            None => r == Err::<usize, QrError>(QrError::MessageTooLong),
        },
{
    let mut v: usize = 1;
    while v <= MAX_VERSION
        invariant
            1 <= v <= MAX_VERSION + 1,
            forall|w: int| 1 <= w < v ==> capacity(w) <= len,
        decreases MAX_VERSION + 1 - v,
    {
        if capacity_of(v) > len {
            return Ok(v);
        }
        v = v + 1;
    }
    Err(QrError::MessageTooLong)
}

/// The byte-mode stream before packing: mode 4, the length byte, the message.
pub open spec fn header_stream(msg: Seq<u8>) -> Seq<u8> {
    seq![4u8, msg.len() as u8] + msg
}

/// Byte `i` of `d` after moving every byte half a byte to the right behind
/// the mode nibble: its low nibble, then the next byte's high nibble.
pub open spec fn packed_byte(d: Seq<u8>, i: int) -> u8 {
    if i + 1 < d.len() {
        ((d[i] % 16) * 16 + d[i + 1] / 16) as u8
    } else {
        ((d[i] % 16) * 16) as u8
    }
}

/// Padding byte `j` after the packed stream: 0xEC and 0x11 in turn.
pub open spec fn pad_byte(j: int) -> u8 {
    if j % 2 == 0 { 0xEC } else { 0x11 }
}

/// The `n` data codewords of a message: the packed stream, then padding.
pub open spec fn data_codewords(msg: Seq<u8>, n: nat) -> Seq<u8> {
    let d = header_stream(msg);
    Seq::new(n, |i: int| if i < d.len() { packed_byte(d, i) } else { pad_byte(i - d.len()) })
}

/// Packs a message into the data codewords of a version: mode nibble,
/// length byte and message moved by half a byte, then alternating padding.
pub fn encode_data(msg: &[u8], version: usize) -> (r: Vec<u8>)
    requires
        valid_version(version as int),
        msg@.len() < capacity(version as int),
    ensures
        r@ == data_codewords(msg@, data_codewords_len(version as int) as nat),
        r@.len() == data_codewords_len(version as int),
{
    let mut d: Vec<u8> = Vec::new();
    d.push(4u8);
    d.push(msg.len() as u8);
    let mut k: usize = 0;
    while k < msg.len()
        invariant
            k <= msg@.len(),
            d@ == seq![4u8, msg@.len() as u8] + msg@.subrange(0, k as int),
        decreases msg@.len() - k,
    {
        d.push(msg[k]);
        k = k + 1;
    }
    assert(msg@.subrange(0, msg@.len() as int) == msg@);
    let ghost hs = header_stream(msg@);
    assert(d@ == hs);
    let n = total_codewords_of(version) - parity_codewords_of(version);
    let mut out: Vec<u8> = Vec::new();
    let mut i: usize = 0;
    while i < d.len()
        invariant
            d@ == hs,
            i <= d@.len(),
            d@.len() <= n,
            out@.len() == i,
            forall|j: int| 0 <= j < i ==> out@[j] == packed_byte(hs, j),
        decreases d@.len() - i,
    {
        let hi: u8 = (d[i] % 16) * 16;
        let b: u8 = if i + 1 < d.len() { hi + d[i + 1] / 16 } else { hi };
        out.push(b);
        i = i + 1;
    }
    let mut j: usize = 0;
    while out.len() < n
        invariant
            out@.len() == d@.len() + j,
            d@ == hs,
            out@.len() <= n,
            forall|t: int| 0 <= t < d@.len() ==> out@[t] == packed_byte(hs, t),
            forall|t: int| d@.len() <= t < out@.len() ==> out@[t] == pad_byte(t - d@.len()),
        decreases n - out@.len(),
    {
        let b: u8 = if j % 2 == 0 { 0xEC } else { 0x11 };
        out.push(b);
        j = j + 1;
    }
    assert(out@ == data_codewords(msg@, n as nat));
    out
}

/// The parity bytes that the Reed-Solomon code gives for `data` and a parity length.
pub uninterp spec fn rs_parity(data: Seq<u8>, parity_len: nat) -> Seq<u8>;

/// Relies on `reed_solomon::Encoder::new(n).encode(data).ecc()`: the `n`
/// parity bytes of a single block, a function of the data and `n` alone.
#[verifier::external_body]
fn reed_solomon_parity(data: &[u8], parity_len: usize) -> (r: Vec<u8>)
    requires
        data@.len() + parity_len <= 255,
    ensures
        r@ == rs_parity(data@, parity_len as nat),
        r@.len() == parity_len,
{
    Encoder::new(parity_len).encode(data).ecc().to_vec()
}

/// The payload of a version: its data codewords followed by their parity.
pub open spec fn payload_of(data: Seq<u8>, version: int) -> Seq<u8> {
    data + rs_parity(data, parity_codewords(version) as nat)
}

/// Appends the parity codewords of a version to its data codewords; a
/// version that needs several error-correction blocks is refused.
pub fn build_payload(data: Vec<u8>, version: usize) -> (r: Result<Vec<u8>, QrError>)
    requires
        known_version(version as int),
        data@.len() == data_codewords_len(version as int),
    ensures
        ecc_blocks(version as int) != 1 ==> r == Err::<Vec<u8>, QrError>(QrError::UnsupportedLayout),
        ecc_blocks(version as int) == 1 ==> (r matches Ok(p) && p@ == payload_of(data@, version as int)),
        r matches Ok(p) ==> p@.len() == total_codewords(version as int),
{
    if ecc_blocks_of(version) != 1 {
        return Err(QrError::UnsupportedLayout);
    }
    let parity = reed_solomon_parity(data.as_slice(), parity_codewords_of(version));
    let mut payload: Vec<u8> = data;
    let mut k: usize = 0;
    while k < parity.len()
        invariant
            payload@ == data@ + parity@.subrange(0, k as int),
            k <= parity@.len(),
        decreases parity@.len() - k,
    {
        payload.push(parity[k]);
        k = k + 1;
    }
    assert(parity@.subrange(0, parity@.len() as int) == parity@);
    Ok(payload)
}

} // verus!
