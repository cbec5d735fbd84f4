use crate::encoder::{
    build_payload, data_codewords, data_codewords_len, ecc_blocks, encode_data, payload_of,
    select_version, valid_version, version_for, QrError,
};
use crate::grid::{Cell, Grid};
use crate::laws::{all_written, lemma_no_unwritten};
use crate::mask::{candidate, choose_mask, is_best_mask};
use crate::placement::{place_data, place_reserved_areas, placed, reserved_layout, side_of};
use vstd::prelude::*;
use vstd::utf8::encode_utf8;

verus! {

/// The payload cells of a message's symbol before masking: the fixed
/// layout of version `v` with the data and parity codewords placed.
pub open spec fn unmasked_symbol(msg: Seq<u8>, v: int) -> Seq<Seq<Cell>> {
    placed(
        reserved_layout(v),
        payload_of(data_codewords(msg, data_codewords_len(v) as nat), v),
        side_of(v),
    )
}

/// Whether `grid`, made with mask `mask`, is the symbol of `msg`: the
/// candidate of that mask over the unmasked symbol, with the mask of lowest
/// penalty, the first on a tie.
pub open spec fn encodes(msg: Seq<u8>, mask: int, grid: Seq<Seq<Cell>>) -> bool {
    match version_for(msg.len() as int) {
        Some(v) => {
            &&& grid == candidate(unmasked_symbol(msg, v), mask)
            &&& is_best_mask(unmasked_symbol(msg, v), side_of(v), mask)
        },
        None => false,
    }
}

/// A QR symbol of a short message, at error-correction level Q.
pub struct QR {
    size: usize,
    version: usize,
    data: Vec<u8>,
    payload: Vec<u8>,
    image: Grid,
    masked: Grid,
    mask: usize,
}

impl QR {
    /// The side of the symbol in modules.
    pub closed spec fn size_view(&self) -> int {
        self.size as int
    }

    /// The symbol version.
    pub closed spec fn version_view(&self) -> int {
        self.version as int
    }

    /// The data codewords: packed header and message, then padding.
    pub closed spec fn data_view(&self) -> Seq<u8> {
        self.data@
    }

    /// The data codewords followed by their parity, once generated.
    pub closed spec fn payload_view(&self) -> Seq<u8> {
        self.payload@
    }

    /// The symbol before masking, once generated.
    pub closed spec fn image_view(&self) -> Seq<Seq<Cell>> {
        self.image@
    }

    /// The finished symbol, once generated.
    pub closed spec fn masked_view(&self) -> Seq<Seq<Cell>> {
        self.masked@
    }

    /// The chosen mask, once generated.
    pub closed spec fn mask_view(&self) -> int {
        self.mask as int
    }

    /// The fields agree: a supported version, its side, two grids of that
    /// side and the data codewords of that version.
    pub closed spec fn wf(&self) -> bool {
        &&& valid_version(self.version as int)
        &&& self.size == side_of(self.version as int)
        &&& self.image.wf()
        &&& self.image.side() == self.size
        &&& self.masked.wf()
        &&& self.masked.side() == self.size
        &&& self.mask < 8
        &&& self.data@.len() == data_codewords_len(self.version as int)
    }

    /// Prepares the symbol of the bytes of `input`: picks the smallest
    /// version that holds it and packs its data codewords. A message of 20
    /// bytes or more is refused.
    pub fn new(input: String) -> (r: Result<QR, QrError>)
        ensures
            ({
                let msg = encode_utf8(input@);
                match version_for(msg.len() as int) {
                    None => r == Err::<QR, QrError>(QrError::MessageTooLong),
                    Some(v) => r matches Ok(q) && {
                        &&& q.wf()
                        &&& q.version_view() == v
                        &&& q.size_view() == side_of(v)
                        &&& q.data_view() == data_codewords(msg, data_codewords_len(v) as nat)
                    },
                }
            }),
    {
        QR::from_bytes(input.as_str().as_bytes())
    }

    /// Prepares the symbol of a byte message, as `new` does.
    pub fn from_bytes(msg: &[u8]) -> (r: Result<QR, QrError>)
        ensures
            match version_for(msg@.len() as int) {
                None => r == Err::<QR, QrError>(QrError::MessageTooLong),
                Some(v) => r matches Ok(q) && {
                    &&& q.wf()
                    &&& q.version_view() == v
                    &&& q.size_view() == side_of(v)
                    &&& q.data_view() == data_codewords(msg@, data_codewords_len(v) as nat)
                },
            },
    {
        let version = match select_version(msg.len()) {
            Ok(v) => v,
            Err(e) => return Err(e),
        };
        let data = encode_data(msg, version);
        let size = (version - 1) * 4 + 21;
        Ok(
            QR {
                size,
                version,
                data,
                payload: Vec::new(),
                image: Grid::filled_with(Cell::Unwritten, size),
                masked: Grid::filled_with(Cell::Unwritten, size),
                mask: 0,
            },
        )
    }

    /// Builds the symbol: parity, fixed layout, payload placement, then the
    /// mask of lowest penalty with its format information.
    pub fn generate(&mut self) -> (r: Result<(), QrError>)
        requires
            old(self).wf(),
        ensures
            final(self).wf(),
            final(self).version_view() == old(self).version_view(),
            final(self).size_view() == old(self).size_view(),
            final(self).data_view() == old(self).data_view(),
            ecc_blocks(old(self).version_view()) != 1 ==> r == Err::<(), QrError>(QrError::UnsupportedLayout),
            ecc_blocks(old(self).version_view()) == 1 ==> {
                let v = old(self).version_view();
                &&& r == Ok::<(), QrError>(())
                &&& final(self).payload_view() == payload_of(old(self).data_view(), v)
                &&& final(self).image_view() == placed(reserved_layout(v), final(self).payload_view(), side_of(v))
                &&& final(self).masked_view() == candidate(final(self).image_view(), final(self).mask_view())
                &&& is_best_mask(final(self).image_view(), side_of(v), final(self).mask_view())
                &&& all_written(final(self).image_view())
                &&& all_written(final(self).masked_view())
            },
    {
        let payload = match build_payload(self.data.clone(), self.version) {
            Ok(p) => p,
            Err(e) => return Err(e),
        };
        let mut image = Grid::filled_with(Cell::Unwritten, self.size);
        place_reserved_areas(&mut image, self.version);
        place_data(&mut image, payload.as_slice());
        let (masked, mask) = choose_mask(&image);
        proof {
            lemma_no_unwritten(reserved_layout(self.version as int), payload@, self.size as int, mask as int);
        }
        self.payload = payload;
        self.image = image;
        self.masked = masked;
        self.mask = mask;
        Ok(())
    }

    /// Prepares and builds the symbol of a byte message in one call.
    pub fn encode(msg: &[u8]) -> (r: Result<QR, QrError>)
        ensures
            version_for(msg@.len() as int) is None ==> r == Err::<QR, QrError>(QrError::MessageTooLong),
            version_for(msg@.len() as int) matches Some(v) ==> (r matches Ok(q) && {
                &&& q.wf()
                &&& q.version_view() == v
                &&& q.size_view() == side_of(v)
                &&& q.image_view() == unmasked_symbol(msg@, v)
                &&& encodes(msg@, q.mask_view(), q.masked_view())
            }),
    {
        let mut q = match QR::from_bytes(msg) {
            Ok(q) => q,
            Err(e) => return Err(e),
        };
        match q.generate() {
            Ok(()) => Ok(q),
            Err(e) => Err(e),
        }
    }

    /// The side of the symbol in modules.
    pub fn size(&self) -> (r: usize)
        ensures
            r == self.size_view(),
    {
        self.size
    }

    /// The symbol version.
    pub fn version(&self) -> (r: usize)
        ensures
            r == self.version_view(),
    {
        self.version
    }

    /// The mask of the finished symbol.
    pub fn mask(&self) -> (r: usize)
        ensures
            r == self.mask_view(),
    {
        self.mask
    }

    /// The data codewords.
    pub fn data(&self) -> (r: &[u8])
        ensures
            r@ == self.data_view(),
    {
        self.data.as_slice()
    }

    /// The data codewords followed by their parity.
    pub fn payload(&self) -> (r: &[u8])
        ensures
            r@ == self.payload_view(),
    {
        self.payload.as_slice()
    }

    /// The cell of the finished symbol at a row and a column.
    pub fn module(&self, row: usize, col: usize) -> (r: Cell)
        requires
            self.wf(),
            row < self.size_view(),
            col < self.size_view(),
        ensures
            r == self.masked_view()[row as int][col as int],
    {
        self.masked.get(row, col)
    }

    /// The cell of the symbol before masking at a row and a column.
    pub fn unmasked_module(&self, row: usize, col: usize) -> (r: Cell)
        requires
            self.wf(),
            row < self.size_view(),
            col < self.size_view(),
        ensures
            r == self.image_view()[row as int][col as int],
    {
        self.image.get(row, col)
    }
}

} // verus!
