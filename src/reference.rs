//! References to named components.
use vstd::prelude::*;

verus! {

/// A reference to a component, such as `#/components/schemas/User`.
pub struct Reference(pub String);

/// What follows the last `/` of `s` (all of `s` if it has none).
pub open spec fn last_segment(s: Seq<char>) -> Seq<char>
    decreases s.len(),
{
    if s.len() == 0 {
        s
    } else if s.last() == '/' {
        Seq::empty()
    } else {
        last_segment(s.drop_last()).push(s.last())
    }
}

impl Reference {
    /// The name of the referenced component: the reference's last segment.
    pub fn name(&self) -> (r: &str)
        ensures
            r@ == last_segment(self.0@),
    {
        let s = self.0.as_str();
        let n = s.unicode_len();
        let mut j = n;
        assert(s@.subrange(0, n as int) =~= s@);
        assert(last_segment(s@) + s@.subrange(n as int, n as int) =~= last_segment(s@));
        while j > 0 && s.get_char(j - 1) != '/'
            invariant
                j <= n,
                n == s@.len(),
                last_segment(s@) == last_segment(s@.subrange(0, j as int)) + s@.subrange(j as int, n as int),
            decreases j,
        {
            proof {
                let t = s@.subrange(0, j as int);
                assert(t.drop_last() =~= s@.subrange(0, j - 1));
                assert(last_segment(t) == last_segment(t.drop_last()).push(t.last()));
                assert(last_segment(t.drop_last()).push(t.last()) + s@.subrange(j as int, n as int)
                    =~= last_segment(s@.subrange(0, j - 1)) + s@.subrange(j - 1, n as int));
            }
            j = j - 1;
        }
        proof {
            let t = s@.subrange(0, j as int);
            assert(last_segment(t) =~= Seq::<char>::empty());
        }
        s.substring_char(j, n)
    }
}

} // verus!
