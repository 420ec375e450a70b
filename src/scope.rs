//! Scopes: a chain of frames, each binding dispatch keys to actions or
//! stored values. Lookups walk from the innermost frame outwards; bindings go
//! into the innermost frame only.
use vstd::prelude::*;
use crate::value::{Filler, Value, ValueM};

verus! {

/// One element of a dispatch key. Words compare case-sensitively.
#[derive(Debug)]
pub enum NamePart {
    /// A literal word of the command.
    Word(String),
    /// The place of a string or filler argument.
    Gap,
}

/// The mathematical form of a key element.
pub enum KeyM {
    Word(Seq<char>),
    Gap,
}

impl View for NamePart {
    type V = KeyM;

    open spec fn view(&self) -> KeyM {
        match self {
            NamePart::Word(w) => KeyM::Word(w@),
            NamePart::Gap => KeyM::Gap,
        }
    }
}

pub open spec fn key_view(k: Seq<NamePart>) -> Seq<KeyM> {
    k.map_values(|p: NamePart| p@)
}

/// The built-in operations that a key can be bound to.
#[derive(PartialEq, Eq, Structural, Clone, Copy, Debug)]
pub enum Action {
    /// `print {X}`: writes the display text of `X`.
    Print,
    /// `name {X} as {Y}`: binds the words of `Y` to the value `X`.
    Name,
    /// `if {C}, then {B}`: runs the program `B` when `C` is true.
    If,
}

/// What a key is bound to.
#[derive(Debug)]
pub enum Entity {
    Action(Action),
    Filler(Value),
}

/// The mathematical form of an `Entity`.
pub enum EntityM {
    Action(Action),
    Filler(ValueM),
}

impl View for Entity {
    type V = EntityM;

    open spec fn view(&self) -> EntityM {
        match self {
            Entity::Action(a) => EntityM::Action(*a),
            Entity::Filler(v) => EntityM::Filler(v@),
        }
    }
}

impl Entity {
    /// A copy of this entity.
    pub fn duplicate(&self) -> (r: Entity)
        ensures
            r@ == self@,
    {
        match self {
            Entity::Action(a) => Entity::Action(*a),
            Entity::Filler(v) => Entity::Filler(v.to_value()),
        }
    }
}

/// A frame: its bindings in the order they were made.
pub type FrameM = Seq<(Seq<KeyM>, EntityM)>;

/// What a frame binds `k` to: its latest binding of `k`.
pub open spec fn frame_find(f: FrameM, k: Seq<KeyM>) -> Option<EntityM>
    decreases f.len(),
{
    if f.len() == 0 {
        None
    } else if f.last().0 == k {
        Some(f.last().1)
    } else {
        frame_find(f.drop_last(), k)
    }
}

/// What a chain of frames (outermost first) binds `k` to: the binding of the
/// innermost frame that binds it.
pub open spec fn scope_find(sc: Seq<FrameM>, k: Seq<KeyM>) -> Option<EntityM>
    decreases sc.len(),
{
    if sc.len() == 0 {
        None
    } else {
        match frame_find(sc.last(), k) {
            Some(e) => Some(e),
            None => scope_find(sc.drop_last(), k),
        }
    }
}

/// `sc` with `k` bound to `e` in its innermost frame.
pub open spec fn scope_register(sc: Seq<FrameM>, k: Seq<KeyM>, e: EntityM) -> Seq<FrameM> {
    sc.update(sc.len() - 1, sc.last().push((k, e)))
}

/// `sc` with a new, empty innermost frame.
pub open spec fn scope_enter(sc: Seq<FrameM>) -> Seq<FrameM> {
    sc.push(Seq::empty())
}

struct Frame {
    bindings: Vec<(Vec<NamePart>, Entity)>,
}

/// A chain of frames, outermost first. It always holds at least one frame.
pub struct Scope {
    frames: Vec<Frame>,
}

spec fn frame_view(f: Frame) -> FrameM {
    f.bindings@.map_values(|b: (Vec<NamePart>, Entity)| (key_view(b.0@), b.1@))
}

impl Scope {
    #[verifier::type_invariant]
    spec fn holds_a_frame(&self) -> bool {
        self.frames.len() > 0
    }
}

impl View for Scope {
    type V = Seq<FrameM>;

    closed spec fn view(&self) -> Seq<FrameM> {
        self.frames@.map_values(|f: Frame| frame_view(f))
    }
}

/// Whether two keys are equal, element by element.
pub fn same_key(a: &Vec<NamePart>, b: &Vec<NamePart>) -> (r: bool)
    ensures
        r == (key_view(a@) == key_view(b@)),
{
    if a.len() != b.len() {
        assert(key_view(a@).len() != key_view(b@).len());
        return false;
    }
    let mut i: usize = 0;
    while i < a.len()
        invariant
            a.len() == b.len(),
            i <= a.len(),
            forall|j: int| 0 <= j < i ==> a@[j]@ == b@[j]@,
        decreases a.len() - i,
    {
        let same = match (&a[i], &b[i]) {
            (NamePart::Word(x), NamePart::Word(y)) => *x == *y,
            (NamePart::Gap, NamePart::Gap) => true,
            _ => false,
        };
        if !same {
            assert(key_view(a@)[i as int] != key_view(b@)[i as int]);
            return false;
        }
        i = i + 1;
    }
    assert(key_view(a@) =~= key_view(b@));
    true
}

impl Frame {
    fn find(&self, key: &Vec<NamePart>) -> (r: Option<Entity>)
        ensures
            match (r, frame_find(frame_view(*self), key_view(key@))) {
                (Some(e), Some(m)) => e@ == m,
                (None, None) => true,
                _ => false,
            },
    {
        let ghost f = frame_view(*self);
        let mut n = self.bindings.len();
        assert(f.take(n as int) =~= f);
        while n > 0
            invariant
                n <= self.bindings.len(),
                f == frame_view(*self),
                frame_find(f, key_view(key@)) == frame_find(f.take(n as int), key_view(key@)),
            decreases n,
        {
            let b = &self.bindings[n - 1];
            assert(f.take(n as int).drop_last() =~= f.take(n - 1));
            if same_key(&b.0, key) {
                return Some(b.1.duplicate());
            }
            n = n - 1;
        }
        None
    }
}

impl Scope {
    /// A scope of one empty frame.
    pub fn new() -> (r: Scope)
        ensures
            r@ == seq![FrameM::empty()],
    {
        let mut frames: Vec<Frame> = Vec::new();
        frames.push(Frame { bindings: Vec::new() });
        let r = Scope { frames };
        assert(frame_view(r.frames@[0]) =~= FrameM::empty());
        assert(r@ =~= seq![FrameM::empty()]);
        r
    }

    /// The number of frames.
    pub fn depth(&self) -> (r: usize)
        ensures
            r == self@.len(),
            r > 0,
    {
        proof {
            use_type_invariant(self);
        }
        self.frames.len()
    }

    /// What `key` is bound to: the binding of the innermost frame that binds it.
    pub fn find(&self, key: &Vec<NamePart>) -> (r: Option<Entity>)
        ensures
            match (r, scope_find(self@, key_view(key@))) {
                (Some(e), Some(m)) => e@ == m,
                (None, None) => true,
                _ => false,
            },
    {
        let ghost sc = self@;
        let mut n = self.frames.len();
        assert(sc.take(n as int) =~= sc);
        while n > 0
            invariant
                n <= self.frames.len(),
                sc == self@,
                scope_find(sc, key_view(key@)) == scope_find(sc.take(n as int), key_view(key@)),
            decreases n,
        {
            assert(sc.take(n as int).drop_last() =~= sc.take(n - 1));
            assert(sc.take(n as int).last() == frame_view(self.frames@[n - 1]));
            match self.frames[n - 1].find(key) {
                Some(e) => {
                    return Some(e);
                },
                None => {},
            }
            n = n - 1;
        }
        None
    }

    /// Binds `key` to `entity` in the innermost frame.
    pub fn register(&mut self, key: Vec<NamePart>, entity: Entity)
        ensures
            final(self)@ == scope_register(old(self)@, key_view(key@), entity@),
            final(self)@.len() == old(self)@.len(),
    {
        proof {
            use_type_invariant(&*self);
        }
        let ghost k = key_view(key@);
        let ghost e = entity@;
        let last = self.frames.len() - 1;
        let mut frames: Vec<Frame> = Vec::new();
        frames.push(Frame { bindings: Vec::new() });
        std::mem::swap(&mut frames, &mut self.frames);
        let mut frame = frames.pop().unwrap();
        frame.bindings.push((key, entity));
        frames.push(frame);
        self.frames = frames;
        assert(frame_view(self.frames@[last as int]) =~= old(self)@.last().push((k, e)));
        assert(self@ =~= scope_register(old(self)@, k, e));
    }

    /// Binds `key` to the stored value `value` in the innermost frame.
    pub fn register_filler(&mut self, key: Vec<NamePart>, value: Value)
        ensures
            final(self)@ == scope_register(old(self)@, key_view(key@), EntityM::Filler(value@)),
    {
        self.register(key, Entity::Filler(value));
    }

    /// Adds a new, empty innermost frame.
    pub fn enter(&mut self)
        ensures
            final(self)@ == scope_enter(old(self)@),
            final(self)@.len() > 1,
    {
        proof {
            use_type_invariant(&*self);
        }
        let mut frames: Vec<Frame> = Vec::new();
        frames.push(Frame { bindings: Vec::new() });
        std::mem::swap(&mut frames, &mut self.frames);
        frames.push(Frame { bindings: Vec::new() });
        self.frames = frames;
        assert(frame_view(self.frames@.last()) =~= FrameM::empty());
        assert(self@ =~= scope_enter(old(self)@));
    }

    /// Removes the innermost frame.
    pub fn leave(&mut self)
        requires
            old(self)@.len() > 1,
        ensures
            final(self)@ == old(self)@.drop_last(),
    {
        proof {
            use_type_invariant(&*self);
        }
        let mut frames: Vec<Frame> = Vec::new();
        frames.push(Frame { bindings: Vec::new() });
        std::mem::swap(&mut frames, &mut self.frames);
        frames.pop();
        self.frames = frames;
        assert(self@ =~= old(self)@.drop_last());
    }
}

} // verus!
