//! Undo and redo of annotation commands. Undo takes back the newest
//! annotation; redo puts a copy of the undone one back.

use vstd::prelude::*;
use crate::capture_core::annotation_model::AnnotationModel;

verus! {

/// The undo stack, redo stack and model after executing `a`, whose copy in
/// the model is `c`.
pub open spec fn spec_execute<A>(u: Seq<A>, r: Seq<A>, m: Seq<A>, a: A, c: A) -> (Seq<A>, Seq<A>, Seq<A>) {
    (u.push(a), Seq::empty(), m.push(c))
}

/// The stacks and model after an undo.
pub open spec fn spec_undo<A>(u: Seq<A>, r: Seq<A>, m: Seq<A>) -> (Seq<A>, Seq<A>, Seq<A>) {
    if u.len() == 0 {
        (u, r, m)
    } else {
        (u.drop_last(), r.push(u.last()), if m.len() > 0 { m.drop_last() } else { m })
    }
}

/// The stacks and model after a redo whose copy in the model is `c`.
pub open spec fn spec_redo<A>(u: Seq<A>, r: Seq<A>, m: Seq<A>, c: A) -> (Seq<A>, Seq<A>, Seq<A>) {
    if r.len() == 0 {
        (u, r, m)
    } else {
        (u.push(r.last()), r.drop_last(), m.push(c))
    }
}

#[derive(Clone, Debug)]
pub struct CommandHistory<A> {
    undo_stack: Vec<A>,
    redo_stack: Vec<A>,
}

impl<A> Default for CommandHistory<A> {
    fn default() -> (h: Self)
        ensures
            h.undo_view() == Seq::<A>::empty(),
            h.redo_view() == Seq::<A>::empty(),
    {
        CommandHistory { undo_stack: Vec::new(), redo_stack: Vec::new() }
    }
}

impl<A> CommandHistory<A> {
    pub closed spec fn undo_view(&self) -> Seq<A> {
        self.undo_stack@
    }

    pub closed spec fn redo_view(&self) -> Seq<A> {
        self.redo_stack@
    }
}

impl<A: Clone> CommandHistory<A> {
    /// Adds `annotation` to the model and the undo stack; the redo stack is dropped.
    pub fn execute(&mut self, annotation: A, model: &mut AnnotationModel<A>)
        ensures
            final(model)@.len() == old(model)@.len() + 1,
            cloned(annotation, final(model)@.last()),
            (final(self).undo_view(), final(self).redo_view(), final(model)@) == spec_execute(
                old(self).undo_view(),
                old(self).redo_view(),
                old(model)@,
                annotation,
                final(model)@.last(),
            ),
    {
        self.redo_stack.clear();
        let copy = annotation.clone();
        model.add_annotation(copy);
        self.undo_stack.push(annotation);
    }

    /// Takes back the newest command.
    pub fn undo(&mut self, model: &mut AnnotationModel<A>)
        ensures
            (final(self).undo_view(), final(self).redo_view(), final(model)@) == spec_undo(
                old(self).undo_view(),
                old(self).redo_view(),
                old(model)@,
            ),
    {
        if let Some(annotation) = self.undo_stack.pop() {
            model.remove_last();
            self.redo_stack.push(annotation);
        }
    }

    /// Re-applies the newest undone command.
    pub fn redo(&mut self, model: &mut AnnotationModel<A>)
        ensures
            old(self).redo_view().len() > 0 ==> cloned(
                old(self).redo_view().last(),
                final(model)@.last(),
            ) && final(model)@.len() == old(model)@.len() + 1,
            (final(self).undo_view(), final(self).redo_view(), final(model)@) == spec_redo(
                old(self).undo_view(),
                old(self).redo_view(),
                old(model)@,
                final(model)@.last(),
            ),
    {
        if let Some(annotation) = self.redo_stack.pop() {
            let copy = annotation.clone();
            model.add_annotation(copy);
            self.undo_stack.push(annotation);
        }
    }

    pub fn can_undo(&self) -> (b: bool)
        ensures
            b == (self.undo_view().len() > 0),
    {
        self.undo_stack.len() > 0
    }

    pub fn can_redo(&self) -> (b: bool)
        ensures
            b == (self.redo_view().len() > 0),
    {
        self.redo_stack.len() > 0
    }

    /// Forgets both stacks; the model is not touched.
    pub fn clear(&mut self)
        ensures
            final(self).undo_view() == Seq::<A>::empty(),
            final(self).redo_view() == Seq::<A>::empty(),
    {
        self.undo_stack.clear();
        self.redo_stack.clear();
    }
}

/// Undo right after execute gives back the model and undo stack as they were,
/// with just the executed annotation left to redo.
pub proof fn lemma_undo_reverts_execute<A>(u: Seq<A>, r: Seq<A>, m: Seq<A>, a: A, c: A)
    ensures
        ({
            let s = spec_execute(u, r, m, a, c);
            spec_undo(s.0, s.1, s.2) == (u, seq![a], m)
        }),
{
    let s = spec_execute(u, r, m, a, c);
    assert(s.0.drop_last() =~= u);
    assert(s.2.drop_last() =~= m);
    assert(Seq::<A>::empty().push(a) =~= seq![a]);
}

/// Redo right after undo gives back both stacks; the model gets its newest
/// entry back as the copy `c` of the re-applied annotation.
pub proof fn lemma_redo_reverts_undo<A>(u: Seq<A>, r: Seq<A>, m: Seq<A>, c: A)
    requires
        u.len() > 0,
        m.len() > 0,
    ensures
        ({
            let s = spec_undo(u, r, m);
            spec_redo(s.0, s.1, s.2, c) == (u, r, m.drop_last().push(c))
        }),
{
    let s = spec_undo(u, r, m);
    assert(s.0.push(s.1.last()) =~= u);
    assert(s.1.drop_last() =~= r);
}

/// Executing a command always empties the redo stack.
pub proof fn lemma_execute_clears_redo<A>(u: Seq<A>, r: Seq<A>, m: Seq<A>, a: A, c: A)
    ensures
        spec_execute(u, r, m, a, c).1.len() == 0,
{
}

/// When the model holds one entry per undoable command, execute, undo and
/// redo keep it that way.
pub proof fn lemma_model_tracks_undo_depth<A>(u: Seq<A>, r: Seq<A>, m: Seq<A>, a: A, c: A)
    requires
        m.len() == u.len(),
    ensures
        spec_execute(u, r, m, a, c).2.len() == spec_execute(u, r, m, a, c).0.len(),
        spec_undo(u, r, m).2.len() == spec_undo(u, r, m).0.len(),
        spec_redo(u, r, m, c).2.len() == spec_redo(u, r, m, c).0.len(),
{
}

/// When the model's newest entry is the newest undoable annotation and the
/// copy that redo puts back equals it (as an exact clone gives), undo then
/// redo restores the model and both stacks.
pub proof fn lemma_undo_redo_restores_model<A>(u: Seq<A>, r: Seq<A>, m: Seq<A>, c: A)
    requires
        u.len() > 0,
        m.len() > 0,
        m.last() == u.last(),
        c == u.last(),
    ensures
        ({
            let s = spec_undo(u, r, m);
            spec_redo(s.0, s.1, s.2, c) == (u, r, m)
        }),
{
    lemma_redo_reverts_undo(u, r, m, c);
    assert(m.drop_last().push(c) =~= m);
}

/// With nothing to redo, redo changes neither the model nor the stacks.
pub proof fn lemma_redo_without_history_changes_nothing<A>(u: Seq<A>, m: Seq<A>, c: A)
    ensures
        spec_redo(u, Seq::<A>::empty(), m, c) == (u, Seq::<A>::empty(), m),
{
}

/// With an exact copy (`c == a`, as a clone that is the identity gives),
/// executing `a` appends it to the model, makes it undoable and leaves
/// nothing to redo.
pub proof fn lemma_execute_appends_to_model<A>(u: Seq<A>, r: Seq<A>, m: Seq<A>, a: A, c: A)
    requires
        c == a,
    ensures
        spec_execute(u, r, m, a, c).2 == m.push(a),
        spec_execute(u, r, m, a, c).0.len() > 0,
        spec_execute(u, r, m, a, c).1.len() == 0,
{
}

} // verus!
