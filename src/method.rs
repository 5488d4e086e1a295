//! HTTP methods that an OpenAPI path item can describe, and method filters.
use vstd::prelude::*;

use crate::error::SpecError;

verus! {

/// One of the eight HTTP methods that an OpenAPI path item has a slot for.
///
/// The variants are declared in the order of their names, which is the
/// canonical order used when operations are emitted.
#[allow(non_camel_case_types)]
#[derive(Clone, Copy, Debug, PartialEq, Eq, Structural, Hash)]
pub enum Method {
    DELETE,
    GET,
    HEAD,
    OPTIONS,
    PATCH,
    POST,
    PUT,
    TRACE,
}

impl Method {
    /// Position of the method in the canonical order (the order of the names).
    pub open spec fn rank(self) -> nat {
        match self {
            Method::DELETE => 0,
            Method::GET => 1,
            Method::HEAD => 2,
            Method::OPTIONS => 3,
            Method::PATCH => 4,
            Method::POST => 5,
            Method::PUT => 6,
            Method::TRACE => 7,
        }
    }

    /// The method's name as it appears on the wire.
    pub open spec fn name(self) -> Seq<char> {
        match self {
            Method::DELETE => seq!['D', 'E', 'L', 'E', 'T', 'E'],
            Method::GET => seq!['G', 'E', 'T'],
            Method::HEAD => seq!['H', 'E', 'A', 'D'],
            Method::OPTIONS => seq!['O', 'P', 'T', 'I', 'O', 'N', 'S'],
            Method::PATCH => seq!['P', 'A', 'T', 'C', 'H'],
            Method::POST => seq!['P', 'O', 'S', 'T'],
            Method::PUT => seq!['P', 'U', 'T'],
            Method::TRACE => seq!['T', 'R', 'A', 'C', 'E'],
        }
    }

    /// The bit that stands for this method in a [`MethodFilter`].
    pub open spec fn bit(self) -> u16 {
        match self {
            Method::DELETE => 0x2,
            Method::GET => 0x4,
            Method::HEAD => 0x8,
            Method::OPTIONS => 0x10,
            Method::PATCH => 0x20,
            Method::POST => 0x40,
            Method::PUT => 0x80,
            Method::TRACE => 0x100,
        }
    }

    /// The method of the given canonical rank.
    pub open spec fn of_rank(r: nat) -> Method
        recommends
            r < 8,
    {
        if r == 0 {
            Method::DELETE
        } else if r == 1 {
            Method::GET
        } else if r == 2 {
            Method::HEAD
        } else if r == 3 {
            Method::OPTIONS
        } else if r == 4 {
            Method::PATCH
        } else if r == 5 {
            Method::POST
        } else if r == 6 {
            Method::PUT
        } else {
            Method::TRACE
        }
    }

    pub fn rank_of(&self) -> (r: u8)
        ensures
            r as nat == self.rank(),
    {
        match self {
            Method::DELETE => 0,
            Method::GET => 1,
            Method::HEAD => 2,
            Method::OPTIONS => 3,
            Method::PATCH => 4,
            Method::POST => 5,
            Method::PUT => 6,
            Method::TRACE => 7,
        }
    }

    /// The method's name, upper case.
    pub fn as_str(&self) -> (r: &'static str)
        ensures
            r@ == self.name(),
    {
        match self {
            Method::DELETE => {
                proof {
                    reveal_strlit("DELETE");
                }
                "DELETE"
            },
            Method::GET => {
                proof {
                    reveal_strlit("GET");
                }
                "GET"
            },
            Method::HEAD => {
                proof {
                    reveal_strlit("HEAD");
                }
                "HEAD"
            },
            Method::OPTIONS => {
                proof {
                    reveal_strlit("OPTIONS");
                }
                "OPTIONS"
            },
            Method::PATCH => {
                proof {
                    reveal_strlit("PATCH");
                }
                "PATCH"
            },
            Method::POST => {
                proof {
                    reveal_strlit("POST");
                }
                "POST"
            },
            Method::PUT => {
                proof {
                    reveal_strlit("PUT");
                }
                "PUT"
            },
            Method::TRACE => {
                proof {
                    reveal_strlit("TRACE");
                }
                "TRACE"
            },
        }
    }

    /// Looks a method up by its name; `None` for a method outside the eight.
    pub fn from_name(name: &str) -> (r: Option<Method>)
        ensures
            r matches Some(m) ==> m.name() == name@,
            r is None ==> forall|m: Method| m.name() != name@,
    {
        let mut k: u8 = 0;
        while k < 8
            invariant
                k <= 8,
                forall|j: nat| j < k ==> Method::of_rank(j).name() != name@,
            decreases 8 - k,
        {
            let m = Method::from_rank(k);
            if str_equal(m.as_str(), name) {
                return Some(m);
            }
            k = k + 1;
        }
        proof {
            assert forall|m: Method| m.name() != name@ by {
                assert(Method::of_rank(m.rank()) == m);
            }
        }
        None
    }

    /// Parses a method name; a method outside the eight is refused.
    pub fn parse(name: &str) -> (r: Result<Method, SpecError>)
        ensures
            r matches Ok(m) ==> m.name() == name@,
            r matches Err(e) ==> e is UnsupportedMethod && e->UnsupportedMethod_method@ == name@
                && forall|m: Method| m.name() != name@,
    {
        match Method::from_name(name) {
            Some(m) => Ok(m),
            None => Err(SpecError::UnsupportedMethod { method: String::from_str(name) }),
        }
    }

    fn from_rank(r: u8) -> (m: Method)
        requires
            r < 8,
        ensures
            m == Method::of_rank(r as nat),
            m.rank() == r,
    {
        if r == 0 {
            Method::DELETE
        } else if r == 1 {
            Method::GET
        } else if r == 2 {
            Method::HEAD
        } else if r == 3 {
            Method::OPTIONS
        } else if r == 4 {
            Method::PATCH
        } else if r == 5 {
            Method::POST
        } else if r == 6 {
            Method::PUT
        } else {
            Method::TRACE
        }
    }
}

/// Compares two strings character by character.
pub fn str_equal(a: &str, b: &str) -> (r: bool)
    ensures
        r == (a@ == b@),
{
    let n = a.unicode_len();
    if n != b.unicode_len() {
        return false;
    }
    let mut i: usize = 0;
    while i < n
        invariant
            n == a@.len(),
            n == b@.len(),
            i <= n,
            forall|j: int| 0 <= j < i ==> a@[j] == b@[j],
        decreases n - i,
    {
        if a.get_char(i) != b.get_char(i) {
            return false;
        }
        i = i + 1;
    }
    assert(a@ =~= b@);
    true
}

/// A set of HTTP methods that a handler is mounted for.
///
/// Each single method has a variant of its own; `Bits` holds any union of
/// them, one bit per method as given by [`Method::bit`].
#[allow(non_camel_case_types)]
#[derive(Clone, Copy, Debug)]
pub enum MethodFilter {
    DELETE,
    GET,
    HEAD,
    OPTIONS,
    PATCH,
    POST,
    PUT,
    TRACE,
    Bits(u16),
}

impl MethodFilter {
    /// The bits of the filter, one per method.
    pub open spec fn spec_bits(self) -> u16 {
        match self {
            MethodFilter::DELETE => Method::DELETE.bit(),
            MethodFilter::GET => Method::GET.bit(),
            MethodFilter::HEAD => Method::HEAD.bit(),
            MethodFilter::OPTIONS => Method::OPTIONS.bit(),
            MethodFilter::PATCH => Method::PATCH.bit(),
            MethodFilter::POST => Method::POST.bit(),
            MethodFilter::PUT => Method::PUT.bit(),
            MethodFilter::TRACE => Method::TRACE.bit(),
            MethodFilter::Bits(b) => b,
        }
    }

    /// Whether the filter lets `m` through.
    pub open spec fn admits(self, m: Method) -> bool {
        self.spec_bits() & m.bit() == m.bit()
    }

    pub fn bits(&self) -> (r: u16)
        ensures
            r == self.spec_bits(),
    {
        match self {
            MethodFilter::DELETE => 0x2,
            MethodFilter::GET => 0x4,
            MethodFilter::HEAD => 0x8,
            MethodFilter::OPTIONS => 0x10,
            MethodFilter::PATCH => 0x20,
            MethodFilter::POST => 0x40,
            MethodFilter::PUT => 0x80,
            MethodFilter::TRACE => 0x100,
            MethodFilter::Bits(b) => *b,
        }
    }

    /// The filter that admits exactly `m`.
    pub fn from_method(m: Method) -> (r: MethodFilter)
        ensures
            r.spec_bits() == m.bit(),
    {
        match m {
            Method::DELETE => MethodFilter::DELETE,
            Method::GET => MethodFilter::GET,
            Method::HEAD => MethodFilter::HEAD,
            Method::OPTIONS => MethodFilter::OPTIONS,
            Method::PATCH => MethodFilter::PATCH,
            Method::POST => MethodFilter::POST,
            Method::PUT => MethodFilter::PUT,
            Method::TRACE => MethodFilter::TRACE,
        }
    }

    /// The union of two filters.
    pub fn or(self, other: MethodFilter) -> (r: MethodFilter)
        ensures
            r.spec_bits() == self.spec_bits() | other.spec_bits(),
    {
        MethodFilter::Bits(self.bits() | other.bits())
    }
}

/// Whether every method of `rhs` is admitted by `lhs`.
pub fn is_filter_present(lhs: MethodFilter, rhs: MethodFilter) -> (r: bool)
    ensures
        r == ((lhs.spec_bits() | rhs.spec_bits()) == lhs.spec_bits()),
        r == (lhs.spec_bits() & rhs.spec_bits() == rhs.spec_bits()),
{
    let l = lhs.bits();
    let rr = rhs.bits();
    proof {
        assert(((l | rr) == l) == (l & rr == rr)) by (bit_vector);
    }
    lhs.or(rhs).bits() == l
}

} // verus!
