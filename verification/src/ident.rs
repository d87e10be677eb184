//! Structured identifiers addressing a child among its siblings: a
//! string key, a numeric index, or an indexed collection entry.

use vstd::prelude::*;
use vstd::string::StringSliceAdditionalSpecFns;

verus! {

/// A child's identifier, unique among its siblings.
#[derive(Debug, Clone, Copy, PartialEq, Eq, Hash)]
pub enum WidgetIdent {
    Str(&'static str),
    Num(u32),
    StrCollection(&'static str, u32),
    NumCollection(u32, u32),
}

/// The mathematical reading of a widget identifier.
pub enum IdentSp {
    Str(Seq<char>),
    Num(u32),
    StrCollection(Seq<char>, u32),
    NumCollection(u32, u32),
}

impl View for WidgetIdent {
    type V = IdentSp;

    open spec fn view(&self) -> IdentSp {
        match *self {
            WidgetIdent::Str(s) => IdentSp::Str(s@),
            WidgetIdent::Num(n) => IdentSp::Num(n),
            WidgetIdent::StrCollection(s, n) => IdentSp::StrCollection(s@, n),
            WidgetIdent::NumCollection(m, n) => IdentSp::NumCollection(m, n),
        }
    }
}

/// Equality of two string slices, decided on their UTF-8 bytes.
fn str_eq(a: &str, b: &str) -> (r: bool)
    ensures
        r == (a@ == b@),
{
    let ab = a.as_bytes();
    let bb = b.as_bytes();
    if ab.len() != bb.len() {
        proof {
            assert(a@ != b@);
        }
        return false;
    }
    let n = ab.len();
    let mut i: usize = 0;
    while i < n
        invariant
            ab@ == a.spec_bytes(),
            bb@ == b.spec_bytes(),
            n == ab@.len(),
            n == bb@.len(),
            0 <= i <= n,
            forall|k: int| 0 <= k < i ==> ab@[k] == bb@[k],
        decreases n - i,
    {
        if ab[i] != bb[i] {
            proof {
                assert(a.spec_bytes() != b.spec_bytes());
                assert(a@ != b@);
            }
            return false;
        }
        i += 1;
    }
    proof {
        assert(a.spec_bytes() =~= b.spec_bytes());
        vstd::utf8::encode_utf8_decode_utf8(a@);
        vstd::utf8::encode_utf8_decode_utf8(b@);
        assert(a@ == b@);
    }
    true
}

impl WidgetIdent {
    /// Whether the two identifiers denote the same child name.
    pub fn eq_ident(&self, other: &WidgetIdent) -> (r: bool)
        ensures
            r == (self@ == other@),
    {
        match (self, other) {
            (WidgetIdent::Str(a), WidgetIdent::Str(b)) => str_eq(a, b),
            (WidgetIdent::Num(a), WidgetIdent::Num(b)) => a == b,
            (WidgetIdent::StrCollection(a, m), WidgetIdent::StrCollection(b, n)) => {
                let same = str_eq(a, b);
                same && m == n
            },
            (WidgetIdent::NumCollection(a, m), WidgetIdent::NumCollection(b, n)) => a == b && m
                == n,
            _ => {
                proof {
                    assert(self@ != other@);
                }
                false
            },
        }
    }
}

} // verus!
