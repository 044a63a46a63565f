//! Asset identifiers: opaque, byte-compared, never normalized.

use crate::money::error::MoneyError;
use crate::money::MAX_ASSET_ID_LEN;
use vstd::prelude::*;
use vstd::utf8::encode_utf8;

verus! {

/// Whether `b` may stand in an asset id: printable ASCII, without the space.
pub open spec fn asset_byte(b: u8) -> bool {
    0x21 <= b <= 0x7E
}

/// What is wrong with `s` as an asset id, `None` when nothing is.
///
/// An empty text is reported before its length, its length before its bytes,
/// and of its bytes the first one that does not belong.
pub open spec fn asset_id_fault(s: Seq<char>, fault: Option<MoneyError>) -> bool {
    let b = encode_utf8(s);
    match fault {
        None => 0 < b.len() <= MAX_ASSET_ID_LEN && forall|i: int|
            0 <= i < b.len() ==> asset_byte(#[trigger] b[i]),
        Some(MoneyError::AssetIdEmpty) => s.len() == 0,
        Some(MoneyError::AssetIdTooLong { len }) => len == b.len() && b.len() > MAX_ASSET_ID_LEN,
        Some(MoneyError::AssetIdInvalidByte { at }) => {
            &&& b.len() <= MAX_ASSET_ID_LEN
            &&& at < b.len()
            &&& !asset_byte(b[at as int])
            &&& forall|i: int| 0 <= i < at ==> asset_byte(#[trigger] b[i])
        },
        Some(_) => false,
    }
}

/// An opaque asset identifier (`"USD"`, `"BTC"`, a chain-qualified token id).
///
/// Two ids are equal exactly when their bytes are: case and every other
/// detail of the spelling count.
#[derive(Debug, Eq, Hash, PartialOrd, Ord)]
pub struct AssetId(String);

impl View for AssetId {
    type V = Seq<char>;

    closed spec fn view(&self) -> Seq<char> {
        self.0@
    }
}

impl AssetId {
    #[verifier::type_invariant]
    spec fn admissible(self) -> bool {
        asset_id_fault(self.0@, None)
    }

    /// Takes `s` as an asset id: non-empty, at most `MAX_ASSET_ID_LEN` bytes,
    /// every byte printable ASCII. Nothing is normalized.
    pub fn new(s: &str) -> (r: Result<Self, MoneyError>)
        ensures
            match r {
                Ok(id) => id@ == s@ && asset_id_fault(s@, None),
                Err(e) => asset_id_fault(s@, Some(e)),
            },
    {
        if s.is_empty() {
            return Err(MoneyError::AssetIdEmpty);
        }
        let bytes = s.as_bytes();
        if bytes.len() > MAX_ASSET_ID_LEN {
            return Err(MoneyError::AssetIdTooLong { len: bytes.len() });
        }
        let mut at: usize = 0;
        while at < bytes.len()
            invariant
                bytes@ == encode_utf8(s@),
                bytes.len() <= MAX_ASSET_ID_LEN,
                at <= bytes.len(),
                forall|i: int| 0 <= i < at ==> asset_byte(#[trigger] bytes@[i]),
            decreases bytes.len() - at,
        {
            if !(0x21 <= bytes[at] && bytes[at] <= 0x7E) {
                return Err(MoneyError::AssetIdInvalidByte { at });
            }
            at = at + 1;
        }
        proof {
            assert(bytes.len() > 0) by {
                assert(s@.len() > 0);
                vstd::utf8::encode_utf8_first_scalar(s@);
            }
        }
        Ok(AssetId(s.to_owned()))
    }

    /// The bare asset id.
    pub fn as_str(&self) -> (r: &str)
        ensures
            r@ == self@,
            asset_id_fault(r@, None),
    {
        proof {
            use_type_invariant(self);
        }
        self.0.as_str()
    }
}

impl std::str::FromStr for AssetId {
    type Err = MoneyError;

    /// Reads an asset id, as [`AssetId::new`] does.
    fn from_str(s: &str) -> (r: Result<Self, MoneyError>)
        ensures
            match r {
                Ok(id) => id@ == s@ && asset_id_fault(s@, None),
                Err(e) => asset_id_fault(s@, Some(e)),
            },
    {
        AssetId::new(s)
    }
}

impl Clone for AssetId {
    fn clone(&self) -> (r: Self)
        ensures
            r@ == self@,
            r == self,
    {
        proof {
            use_type_invariant(self);
        }
        AssetId(self.0.clone())
    }
}

impl PartialEq for AssetId {
    fn eq(&self, other: &Self) -> (r: bool) {
        self.0 == other.0
    }
}

impl vstd::std_specs::cmp::PartialEqSpecImpl for AssetId {
    open spec fn obeys_eq_spec() -> bool {
        true
    }

    open spec fn eq_spec(&self, other: &Self) -> bool {
        self@ == other@
    }
}

/// A text is reported with exactly one fault, or accepted.
pub proof fn lemma_asset_id_fault_unique(s: Seq<char>, a: Option<MoneyError>, b: Option<MoneyError>)
    requires
        asset_id_fault(s, a),
        asset_id_fault(s, b),
    ensures
        a == b,
{
    let bytes = encode_utf8(s);
    if s.len() > 0 {
        vstd::utf8::encode_utf8_first_scalar(s);
    }
    match (a, b) {
        (
            Some(MoneyError::AssetIdInvalidByte { at: i }),
            Some(MoneyError::AssetIdInvalidByte { at: j }),
        ) => {
            assert(!asset_byte(bytes[i as int]));
            assert(!asset_byte(bytes[j as int]));
        },
        (Some(MoneyError::AssetIdInvalidByte { at }), _) => {
            assert(!asset_byte(bytes[at as int]));
        },
        (_, Some(MoneyError::AssetIdInvalidByte { at })) => {
            assert(!asset_byte(bytes[at as int]));
        },
        _ => {},
    }
}

} // verus!
