//! File Type Box implementation.

use vstd::prelude::*;
use vstd::string::StringSliceAdditionalSpecFns;
use crate::bmff::fourcc::{same_code, AVIF, AVIS};
use crate::error::{bmff, eof, BmffError, Error, Result};
use crate::io::ReadStream;

verus! {

/// File type box.
#[derive(Debug)]
pub struct FileTypeBox {
    /// Major brand.
    pub major_brand: [u8; 4],
    /// Minor version.
    pub minor_version: [u8; 4],
    /// Compatible brands.
    pub compatible_brands: Vec<[u8; 4]>,
}

impl FileTypeBox {
    /// Whether `d` parses as a file type box, and else the error.
    pub open spec fn outcome(d: Seq<u8>) -> Result<()> {
        if d.len() < 8 {
            Err(eof())
        } else if (d.len() - 8) % 4 != 0 {
            Err(bmff(BmffError::BrandsNotMultipleOfFour((d.len() - 8) as usize)))
        } else {
            Ok(())
        }
    }

    /// The fields are those that `d` holds: two brands of four bytes, then the
    /// compatible brands.
    pub open spec fn parsed_from(&self, d: Seq<u8>) -> bool {
        &&& self.major_brand@ == d.subrange(0, 4)
        &&& self.minor_version@ == d.subrange(4, 8)
        &&& self.compatible_brands@.len() == (d.len() - 8) / 4
        &&& forall|i: int|
            0 <= i < self.compatible_brands@.len() ==> #[trigger] self.compatible_brands@[i]@
                == d.subrange(8 + 4 * i, 12 + 4 * i)
    }

    /// Parse a file type box from a buffer.
    pub fn parse(data: &[u8]) -> (r: Result<Self>)
        ensures
            match Self::outcome(data@) {
                Ok(_) => r matches Ok(b) && b.parsed_from(data@),
                Err(e) => r == Err::<Self, Error>(e),
            },
    {
        let mut stream = ReadStream::new(data);
        let major_brand = stream.read_code()?;
        let minor_version = stream.read_code()?;
        let remaining = stream.remaining_bytes();
        if remaining % 4 != 0 {
            return Err(Error::BmffParse(BmffError::BrandsNotMultipleOfFour(remaining)));
        }
        let brand_count = remaining / 4;
        let mut compatible_brands: Vec<[u8; 4]> = Vec::new();
        let mut i: usize = 0;
        while i < brand_count
            invariant
                stream.inv(),
                stream.bytes() == data@,
                brand_count == (data@.len() - 8) / 4,
                (data@.len() - 8) % 4 == 0,
                i <= brand_count,
                stream.pos() == 8 + 4 * i,
                compatible_brands@.len() == i,
                forall|j: int|
                    0 <= j < i ==> #[trigger] compatible_brands@[j]@ == data@.subrange(8 + 4 * j, 12 + 4 * j),
            decreases brand_count - i,
        {
            let brand = stream.read_code()?;
            compatible_brands.push(brand);
            i = i + 1;
        }
        Ok(Self { major_brand, minor_version, compatible_brands })
    }

    /// The brand is the major brand or one of the compatible brands.
    pub open spec fn spec_has_brand(&self, b: Seq<u8>) -> bool {
        ||| self.major_brand@ == b
        ||| exists|i: int| 0 <= i < self.compatible_brands@.len() && #[trigger] self.compatible_brands@[i]@ == b
    }

    fn has_code(&self, code: &[u8; 4]) -> (r: bool)
        ensures
            r == self.spec_has_brand(code@),
    {
        if same_code(&self.major_brand, code) {
            return true;
        }
        let mut i: usize = 0;
        while i < self.compatible_brands.len()
            invariant
                i <= self.compatible_brands@.len(),
                self.major_brand@ != code@,
                forall|j: int| 0 <= j < i ==> #[trigger] self.compatible_brands@[j]@ != code@,
            decreases self.compatible_brands@.len() - i,
        {
            if same_code(&self.compatible_brands[i], code) {
                return true;
            }
            i = i + 1;
        }
        false
    }

    /// Check if this file type box has a specific brand: the string has four
    /// bytes, and they are the major brand or a compatible brand.
    pub fn has_brand(&self, brand: &str) -> (r: bool)
        ensures
            r == (brand.spec_bytes().len() == 4 && self.spec_has_brand(brand.spec_bytes())),
    {
        let b = brand.as_bytes();
        if b.len() != 4 {
            return false;
        }
        let code: [u8; 4] = [b[0], b[1], b[2], b[3]];
        assert(code@ =~= b@);
        self.has_code(&code)
    }

    /// Check if this is an AVIF file: `avif` or `avis` is among its brands.
    pub fn is_avif(&self) -> (r: bool)
        ensures
            r == (self.spec_has_brand(AVIF@) || self.spec_has_brand(AVIS@)),
    {
        self.has_code(&AVIF) || self.has_code(&AVIS)
    }
}

/// The compatible brand at index `i` of the file type box in `d`.
pub open spec fn brand_at(d: Seq<u8>, i: int) -> Seq<u8> {
    d.subrange(8 + 4 * i, 12 + 4 * i)
}

/// The file type box in `d` names brand `b`, as major or as compatible brand.
pub open spec fn brands_include(d: Seq<u8>, b: Seq<u8>) -> bool {
    ||| d.subrange(0, 4) == b
    ||| exists|i: int| 0 <= i < (d.len() - 8) / 4 && #[trigger] brand_at(d, i) == b
}

/// A file type box parsed from `d` has exactly the brands that `d` names.
pub proof fn lemma_has_brand(f: &FileTypeBox, d: Seq<u8>, b: Seq<u8>)
    requires
        f.parsed_from(d),
    ensures
        f.spec_has_brand(b) == brands_include(d, b),
{
    if f.spec_has_brand(b) && f.major_brand@ != b {
        let i = choose|i: int| 0 <= i < f.compatible_brands@.len() && #[trigger] f.compatible_brands@[i]@ == b;
        assert(brand_at(d, i) == b);
    }
    if brands_include(d, b) && d.subrange(0, 4) != b {
        let i = choose|i: int| 0 <= i < (d.len() - 8) / 4 && #[trigger] brand_at(d, i) == b;
        assert(f.compatible_brands@[i]@ == b);
    }
}


/// The bytes of four-character codes, one after the other.
#[verifier::opaque]
pub open spec fn codes_bytes(codes: Seq<Seq<u8>>) -> Seq<u8> {
    Seq::new((4 * codes.len()) as nat, |k: int| codes[k / 4][k % 4])
}

/// Byte `4 * i + j` of the bytes of codes is byte `j` of code `i`.
proof fn lemma_codes_byte(codes: Seq<Seq<u8>>, i: int, j: int)
    requires
        0 <= i < codes.len(),
        0 <= j < 4,
    ensures
        codes_bytes(codes).len() == 4 * codes.len(),
        codes_bytes(codes)[4 * i + j] == codes[i][j],
{
    reveal(codes_bytes);
    let k = 4 * i + j;
    assert(k / 4 == i && k % 4 == j) by (nonlinear_arith)
        requires k == 4 * i + j, 0 <= j < 4;
}

/// A file type box holds the major brand, then the minor version, then the
/// compatible brands, four bytes each: a box so written parses and gives back
/// those brands, in order, and that minor version.
pub proof fn lemma_ftyp_read_back(major: Seq<u8>, minor: Seq<u8>, brands: Seq<Seq<u8>>, f: FileTypeBox)
    requires
        major.len() == 4,
        minor.len() == 4,
        forall|i: int| 0 <= i < brands.len() ==> (#[trigger] brands[i]).len() == 4,
    ensures
        FileTypeBox::outcome(major + minor + codes_bytes(brands)) is Ok,
        f.parsed_from(major + minor + codes_bytes(brands)) ==> {
            &&& f.major_brand@ == major
            &&& f.minor_version@ == minor
            &&& f.compatible_brands@.len() == brands.len()
            &&& forall|i: int| 0 <= i < brands.len() ==> (#[trigger] f.compatible_brands@[i])@ == brands[i]
        },
{
    reveal(codes_bytes);
    let n = brands.len() as int;
    let d = major + minor + codes_bytes(brands);
    assert(d.len() == 8 + 4 * n);
    assert((4 * n) % 4 == 0 && (4 * n) / 4 == n) by (nonlinear_arith);
    assert(d.subrange(0, 4) =~= major);
    assert(d.subrange(4, 8) =~= minor);
    if f.parsed_from(d) {
        assert forall|i: int| 0 <= i < n implies (#[trigger] f.compatible_brands@[i])@ == brands[i] by {
            assert forall|j: int| 0 <= j < 4 implies #[trigger] d.subrange(8 + 4 * i, 12 + 4 * i)[j] == brands[i][j] by {
                lemma_codes_byte(brands, i, j);
                assert(8 + 4 * i + j < d.len());
            }
            assert(d.subrange(8 + 4 * i, 12 + 4 * i) =~= brands[i]);
        }
    }
}

} // verus!
