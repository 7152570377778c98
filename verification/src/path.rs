//! Relative paths: the unit of queueing and reporting during a tree copy.

use vstd::prelude::*;

verus! {

/// A path expressed relative to the root of the tree being copied, as a
/// sequence of name components. The empty sequence is the tree root itself.
///
/// A `RelPath` never contains the source or destination root prefix; the
/// driver joins it onto one of the roots to form an operational path.
#[derive(Debug)]
pub struct RelPath {
    /// The name components, in order from the root.
    pub parts: Vec<String>,
}

impl View for RelPath {
    type V = Seq<Seq<char>>;

    open spec fn view(&self) -> Seq<Seq<char>> {
        Seq::new(self.parts@.len(), |i: int| self.parts@[i]@)
    }
}

impl RelPath {
    /// The empty relative path: the root of the tree.
    pub fn root() -> (r: RelPath)
        ensures
            r@ == Seq::<Seq<char>>::empty(),
    {
        let r = RelPath { parts: Vec::new() };
        proof {
            assert(r@ =~= Seq::<Seq<char>>::empty());
        }
        r
    }

    /// The number of components.
    pub fn depth(&self) -> (n: usize)
        ensures
            n == self@.len(),
    {
        self.parts.len()
    }

    /// The component at position `i`.
    pub fn part(&self, i: usize) -> (r: &String)
        requires
            i < self@.len(),
        ensures
            r@ == self@[i as int],
    {
        &self.parts[i]
    }

    /// An independent copy of this path.
    pub fn duplicate(&self) -> (r: RelPath)
        ensures
            r@ == self@,
    {
        let mut parts: Vec<String> = Vec::new();
        let mut i: usize = 0;
        while i < self.parts.len()
            invariant
                i <= self.parts.len(),
                parts@.len() == i,
                forall|j: int| 0 <= j < i ==> parts@[j]@ == self.parts@[j]@,
            decreases self.parts.len() - i,
        {
            parts.push(self.parts[i].clone());
            i = i + 1;
        }
        let r = RelPath { parts };
        proof {
            assert(r@ =~= self@);
        }
        r
    }

    /// This path extended by one more component.
    pub fn join(&self, name: &str) -> (r: RelPath)
        ensures
            r@ == self@.push(name@),
    {
        let mut r = self.duplicate();
        r.parts.push(name.to_owned());
        proof {
            assert(r@ =~= self@.push(name@));
        }
        r
    }

    /// The components joined with `/` between them, for presenting the path.
    pub fn display_string(&self) -> (r: String)
        ensures
            r@ == joined(self@),
    {
        let mut s = String::new();
        let mut i: usize = 0;
        while i < self.parts.len()
            invariant
                i <= self.parts.len(),
                s@ == joined(self@.take(i as int)),
            decreases self.parts.len() - i,
        {
            if i > 0 {
                s.append("/");
            }
            s.append(self.parts[i].as_str());
            proof {
                assert(self@.take(i + 1 as int).drop_last() =~= self@.take(i as int));
                assert(s@ == joined(self@.take(i + 1 as int)));
            }
            i = i + 1;
        }
        proof {
            assert(self@.take(self.parts@.len() as int) =~= self@);
        }
        s
    }
}

/// The components of a path joined with `/` between them.
pub open spec fn joined(parts: Seq<Seq<char>>) -> Seq<char>
    decreases parts.len(),
{
    if parts.len() == 0 {
        Seq::empty()
    } else if parts.len() == 1 {
        parts[0]
    } else {
        joined(parts.drop_last()) + "/"@ + parts.last()
    }
}

} // verus!
