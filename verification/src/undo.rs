//! Undo/redo stack for staging operations, and what undoing or redoing each
//! operation asks of the repository.
use vstd::prelude::*;

verus! {

/// Represents an undoable operation.
#[derive(Debug, Clone)]
pub enum UndoableOp {
    StageFile(String),
    UnstageFile(String),
    StageAll,
    UnstageAll,
    /// Discard with saved file content for restoration.
    Discard(String, Vec<u8>),
}

/// An undoable operation as plain values.
pub enum OpView {
    StageFile(Seq<char>),
    UnstageFile(Seq<char>),
    StageAll,
    UnstageAll,
    Discard(Seq<char>, Seq<u8>),
}

impl View for UndoableOp {
    type V = OpView;

    open spec fn view(&self) -> OpView {
        match self {
            UndoableOp::StageFile(p) => OpView::StageFile(p@),
            UndoableOp::UnstageFile(p) => OpView::UnstageFile(p@),
            UndoableOp::StageAll => OpView::StageAll,
            UndoableOp::UnstageAll => OpView::UnstageAll,
            UndoableOp::Discard(p, c) => OpView::Discard(p@, c@),
        }
    }
}

fn copy_bytes(v: &Vec<u8>) -> (r: Vec<u8>)
    ensures
        r@ == v@,
{
    let mut r: Vec<u8> = Vec::new();
    let mut i: usize = 0;
    while i < v.len()
        invariant
            i <= v.len(),
            r@ == v@.take(i as int),
        decreases v.len() - i,
    {
        r.push(v[i]);
        assert(v@.take(i + 1) == v@.take(i as int).push(v@[i as int]));
        i = i + 1;
    }
    assert(v@.take(v.len() as int) == v@);
    r
}

impl UndoableOp {
    /// A copy of this operation.
    pub fn duplicate(&self) -> (r: UndoableOp)
        ensures
            r@ == self@,
    {
        match self {
            UndoableOp::StageFile(p) => UndoableOp::StageFile(p.clone()),
            UndoableOp::UnstageFile(p) => UndoableOp::UnstageFile(p.clone()),
            UndoableOp::StageAll => UndoableOp::StageAll,
            UndoableOp::UnstageAll => UndoableOp::UnstageAll,
            UndoableOp::Discard(p, c) => UndoableOp::Discard(p.clone(), copy_bytes(c)),
        }
    }
}

/// Simple undo/redo stack for staging operations.
#[derive(Debug)]
pub struct UndoStack {
    past: Vec<UndoableOp>,
    future: Vec<UndoableOp>,
}

/// The operations of a list, as plain values.
pub open spec fn ops_view(v: Seq<UndoableOp>) -> Seq<OpView> {
    v.map_values(|op: UndoableOp| op@)
}

impl View for UndoStack {
    /// The operations that can be undone (oldest first) and those that can be
    /// redone (the next one to redo last).
    type V = (Seq<OpView>, Seq<OpView>);

    closed spec fn view(&self) -> (Seq<OpView>, Seq<OpView>) {
        (ops_view(self.past@), ops_view(self.future@))
    }
}

/// The stack after recording `op`: it can be undone, and nothing can be
/// redone any more.
pub open spec fn pushed(s: (Seq<OpView>, Seq<OpView>), op: OpView) -> (Seq<OpView>, Seq<OpView>) {
    (s.0.push(op), Seq::empty())
}

/// The stack after an undo, and the operation undone (none when there is
/// nothing to undo).
pub open spec fn undone(s: (Seq<OpView>, Seq<OpView>)) -> ((Seq<OpView>, Seq<OpView>), Option<OpView>) {
    if s.0.len() == 0 {
        (s, None)
    } else {
        ((s.0.drop_last(), s.1.push(s.0.last())), Some(s.0.last()))
    }
}

/// The stack after a redo, and the operation redone (none when there is
/// nothing to redo).
pub open spec fn redone(s: (Seq<OpView>, Seq<OpView>)) -> ((Seq<OpView>, Seq<OpView>), Option<OpView>) {
    if s.1.len() == 0 {
        (s, None)
    } else {
        ((s.0.push(s.1.last()), s.1.drop_last()), Some(s.1.last()))
    }
}

impl UndoStack {
    /// An empty stack.
    pub fn new() -> (r: UndoStack)
        ensures
            r@ == (Seq::<OpView>::empty(), Seq::<OpView>::empty()),
    {
        let r = UndoStack { past: Vec::new(), future: Vec::new() };
        assert(ops_view(r.past@) == Seq::<OpView>::empty());
        assert(ops_view(r.future@) == Seq::<OpView>::empty());
        r
    }

    /// Records `op`; whatever could be redone is forgotten.
    pub fn push(&mut self, op: UndoableOp)
        ensures
            final(self)@ == pushed(old(self)@, op@),
    {
        let ghost ov = op@;
        self.past.push(op);
        self.future.clear();
        assert(ops_view(self.past@) == ops_view(old(self).past@).push(ov));
        assert(ops_view(self.future@) == Seq::<OpView>::empty());
    }

    /// Takes back the latest operation, which then can be redone.
    pub fn undo(&mut self) -> (r: Option<UndoableOp>)
        ensures
            (final(self)@, match r {
                Some(op) => Some(op@),
                None => None,
            }) == undone(old(self)@),
    {
        let n = self.past.len();
        if n == 0 {
            return None;
        }
        let op = self.past.pop().unwrap();
        self.future.push(op.duplicate());
        proof {
            assert(ops_view(self.past@) == ops_view(old(self).past@).drop_last());
            assert(ops_view(self.future@) == ops_view(old(self).future@).push(op@));
            assert(ops_view(old(self).past@).last() == op@);
        }
        Some(op)
    }

    /// Performs again the latest undone operation, which then can be undone.
    pub fn redo(&mut self) -> (r: Option<UndoableOp>)
        ensures
            (final(self)@, match r {
                Some(op) => Some(op@),
                None => None,
            }) == redone(old(self)@),
    {
        let n = self.future.len();
        if n == 0 {
            return None;
        }
        let op = self.future.pop().unwrap();
        self.past.push(op.duplicate());
        proof {
            assert(ops_view(self.future@) == ops_view(old(self).future@).drop_last());
            assert(ops_view(self.past@) == ops_view(old(self).past@).push(op@));
            assert(ops_view(old(self).future@).last() == op@);
        }
        Some(op)
    }

    pub fn can_undo(&self) -> (r: bool)
        ensures
            r == (self@.0.len() > 0),
    {
        !self.past.is_empty()
    }

    pub fn can_redo(&self) -> (r: bool)
        ensures
            r == (self@.1.len() > 0),
    {
        !self.future.is_empty()
    }

    /// Forgets everything.
    pub fn clear(&mut self)
        ensures
            final(self)@ == (Seq::<OpView>::empty(), Seq::<OpView>::empty()),
    {
        self.past.clear();
        self.future.clear();
        assert(ops_view(self.past@) == Seq::<OpView>::empty());
        assert(ops_view(self.future@) == Seq::<OpView>::empty());
    }
}

impl Default for UndoStack {
    fn default() -> (r: UndoStack)
        ensures
            r@ == (Seq::<OpView>::empty(), Seq::<OpView>::empty()),
    {
        UndoStack::new()
    }
}

/// Undoing the operation just recorded gives it back and leaves the earlier
/// history as it was, with only that operation left to redo.
pub proof fn law_undo_after_push(s: (Seq<OpView>, Seq<OpView>), op: OpView)
    ensures
        undone(pushed(s, op)) == ((s.0, seq![op]), Some(op)),
{
    assert(pushed(s, op).0.drop_last() == s.0);
    assert(Seq::<OpView>::empty().push(op) == seq![op]);
}

/// Redo takes back an undo: the stack returns to where it was, and the same
/// operation is handed out again.
pub proof fn law_redo_after_undo(s: (Seq<OpView>, Seq<OpView>))
    requires
        s.0.len() > 0,
    ensures
        redone(undone(s).0) == (s, undone(s).1),
{
    let u = undone(s).0;
    assert(u.1.drop_last() == s.1);
    assert(u.0.push(u.1.last()) == s.0);
}

/// Undo takes back a redo in the same way.
pub proof fn law_undo_after_redo(s: (Seq<OpView>, Seq<OpView>))
    requires
        s.1.len() > 0,
    ensures
        undone(redone(s).0) == (s, redone(s).1),
{
    let u = redone(s).0;
    assert(u.0.drop_last() == s.0);
    assert(u.1.push(u.0.last()) == s.1);
}

/// Recording an operation leaves nothing to redo.
pub proof fn law_push_clears_redo(s: (Seq<OpView>, Seq<OpView>), op: OpView)
    ensures
        redone(pushed(s, op)) == (pushed(s, op), None::<OpView>),
{
}

/// Undo and redo move operations between the two lists and never lose one:
/// the total count stays the same.
pub proof fn law_undo_redo_keep_count(s: (Seq<OpView>, Seq<OpView>))
    ensures
        undone(s).0.0.len() + undone(s).0.1.len() == s.0.len() + s.1.len(),
        redone(s).0.0.len() + redone(s).0.1.len() == s.0.len() + s.1.len(),
{
}

/// What the repository is asked to do to undo or redo an operation.
#[derive(Debug, Clone)]
pub enum StagingAction {
    StageFile(String),
    UnstageFile(String),
    StageAll,
    UnstageAll,
    /// Write the saved content back to the file.
    RestoreFile(String, Vec<u8>),
    /// Throw away the working-tree changes of the file.
    DiscardFile(String),
}

/// A staging action as plain values.
pub enum ActionView {
    StageFile(Seq<char>),
    UnstageFile(Seq<char>),
    StageAll,
    UnstageAll,
    RestoreFile(Seq<char>, Seq<u8>),
    DiscardFile(Seq<char>),
}

impl View for StagingAction {
    type V = ActionView;

    open spec fn view(&self) -> ActionView {
        match self {
            StagingAction::StageFile(p) => ActionView::StageFile(p@),
            StagingAction::UnstageFile(p) => ActionView::UnstageFile(p@),
            StagingAction::StageAll => ActionView::StageAll,
            StagingAction::UnstageAll => ActionView::UnstageAll,
            StagingAction::RestoreFile(p, c) => ActionView::RestoreFile(p@, c@),
            StagingAction::DiscardFile(p) => ActionView::DiscardFile(p@),
        }
    }
}

/// The action that takes an operation back.
pub open spec fn undo_of(op: OpView) -> ActionView {
    match op {
        OpView::StageFile(p) => ActionView::UnstageFile(p),
        OpView::UnstageFile(p) => ActionView::StageFile(p),
        OpView::StageAll => ActionView::UnstageAll,
        OpView::UnstageAll => ActionView::StageAll,
        OpView::Discard(p, c) => ActionView::RestoreFile(p, c),
    }
}

/// The action that performs an operation again.
pub open spec fn redo_of(op: OpView) -> ActionView {
    match op {
        OpView::StageFile(p) => ActionView::StageFile(p),
        OpView::UnstageFile(p) => ActionView::UnstageFile(p),
        OpView::StageAll => ActionView::StageAll,
        OpView::UnstageAll => ActionView::UnstageAll,
        OpView::Discard(p, c) => ActionView::DiscardFile(p),
    }
}

/// The staging action that is the opposite of `a` (staging and unstaging
/// swap); restoring and discarding have no opposite here and stay as they are.
pub open spec fn opposite(a: ActionView) -> ActionView {
    match a {
        ActionView::StageFile(p) => ActionView::UnstageFile(p),
        ActionView::UnstageFile(p) => ActionView::StageFile(p),
        ActionView::StageAll => ActionView::UnstageAll,
        ActionView::UnstageAll => ActionView::StageAll,
        _ => a,
    }
}

/// What undoing `op` asks of the repository.
pub fn undo_action(op: &UndoableOp) -> (r: StagingAction)
    ensures
        r@ == undo_of(op@),
{
    match op {
        UndoableOp::StageFile(p) => StagingAction::UnstageFile(p.clone()),
        UndoableOp::UnstageFile(p) => StagingAction::StageFile(p.clone()),
        UndoableOp::StageAll => StagingAction::UnstageAll,
        UndoableOp::UnstageAll => StagingAction::StageAll,
        UndoableOp::Discard(p, c) => StagingAction::RestoreFile(p.clone(), copy_bytes(c)),
    }
}

/// What redoing `op` asks of the repository.
pub fn redo_action(op: &UndoableOp) -> (r: StagingAction)
    ensures
        r@ == redo_of(op@),
{
    match op {
        UndoableOp::StageFile(p) => StagingAction::StageFile(p.clone()),
        UndoableOp::UnstageFile(p) => StagingAction::UnstageFile(p.clone()),
        UndoableOp::StageAll => StagingAction::StageAll,
        UndoableOp::UnstageAll => StagingAction::UnstageAll,
        UndoableOp::Discard(p, _) => StagingAction::DiscardFile(p.clone()),
    }
}

/// For every staging operation, undoing it does the opposite of redoing it;
/// a discard is undone by writing back exactly the content it saved.
pub proof fn law_undo_is_opposite_of_redo(op: OpView)
    ensures
        !(op is Discard) ==> undo_of(op) == opposite(redo_of(op)),
        op matches OpView::Discard(p, c) ==> undo_of(op) == ActionView::RestoreFile(p, c)
            && redo_of(op) == ActionView::DiscardFile(p),
{
}

/// Redoing an operation performs that very operation again, and undoing it
/// performs its opposite: staging a file is undone by unstaging it and an
/// unstaged file is staged again; staging everything is undone by
/// unstaging everything and the other way round; a discard is redone by
/// discarding the file again and undone by writing back the content it
/// saved.
pub proof fn law_redo_repeats_undo_reverses(p: Seq<char>, c: Seq<u8>)
    ensures
        redo_of(OpView::StageFile(p)) == ActionView::StageFile(p),
        redo_of(OpView::UnstageFile(p)) == ActionView::UnstageFile(p),
        redo_of(OpView::StageAll) == ActionView::StageAll,
        redo_of(OpView::UnstageAll) == ActionView::UnstageAll,
        redo_of(OpView::Discard(p, c)) == ActionView::DiscardFile(p),
        undo_of(OpView::StageFile(p)) == ActionView::UnstageFile(p),
        undo_of(OpView::UnstageFile(p)) == ActionView::StageFile(p),
        undo_of(OpView::StageAll) == ActionView::UnstageAll,
        undo_of(OpView::UnstageAll) == ActionView::StageAll,
        undo_of(OpView::Discard(p, c)) == ActionView::RestoreFile(p, c),
{
}

} // verus!
