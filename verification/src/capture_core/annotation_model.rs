//! The ordered list of annotations drawn on a capture. The model is generic
//! over the annotation value; the drawing shapes themselves (which carry
//! floating-point geometry) live with the renderer.

use vstd::prelude::*;

verus! {

#[derive(Clone, Debug)]
pub struct AnnotationModel<A> {
    annotations: Vec<A>,
}

impl<A> View for AnnotationModel<A> {
    type V = Seq<A>;

    closed spec fn view(&self) -> Seq<A> {
        self.annotations@
    }
}

impl<A> Default for AnnotationModel<A> {
    fn default() -> (m: Self)
        ensures
            m@ == Seq::<A>::empty(),
    {
        AnnotationModel { annotations: Vec::new() }
    }
}

impl<A> AnnotationModel<A> {
    pub fn add_annotation(&mut self, annotation: A)
        ensures
            final(self)@ == old(self)@.push(annotation),
    {
        self.annotations.push(annotation);
    }

    /// Removes the annotation at `index`; an index past the end changes nothing.
    pub fn remove_annotation(&mut self, index: usize)
        ensures
            index < old(self)@.len() ==> final(self)@ == old(self)@.remove(index as int),
            index >= old(self)@.len() ==> final(self)@ == old(self)@,
    {
        if index < self.annotations.len() {
            self.annotations.remove(index);
        }
    }

    /// Removes and returns the newest annotation.
    pub fn remove_last(&mut self) -> (last: Option<A>)
        ensures
            old(self)@.len() == 0 ==> last is None && final(self)@ == old(self)@,
            old(self)@.len() > 0 ==> last == Some(old(self)@.last()) && final(self)@
                == old(self)@.drop_last(),
    {
        self.annotations.pop()
    }

    pub fn clear(&mut self)
        ensures
            final(self)@ == Seq::<A>::empty(),
    {
        self.annotations.clear();
    }

    pub fn annotations(&self) -> (s: &[A])
        ensures
            s@ == self@,
    {
        self.annotations.as_slice()
    }

    pub fn count(&self) -> (n: usize)
        ensures
            n == self@.len(),
    {
        self.annotations.len()
    }
}

/// Removing the last annotation right after adding one gives that annotation
/// back and leaves the model as it was before the add.
pub proof fn lemma_remove_last_undoes_add<A>(before: Seq<A>, annotation: A)
    ensures
        before.push(annotation).len() > 0,
        before.push(annotation).last() == annotation,
        before.push(annotation).drop_last() == before,
{
    assert(before.push(annotation).drop_last() =~= before);
}

} // verus!
