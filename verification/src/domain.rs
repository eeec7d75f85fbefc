//! The value model: primitives, stored values, and parsed commands.

use vstd::prelude::*;
use crate::text::dec_str;

verus! {

/// A scalar stored in the store or held in a set: a text string or a
/// signed 64-bit integer. Two primitives are equal iff they have the same
/// variant and the same payload; there is no numeric/string coercion.
#[derive(Debug)]
pub enum Primitive {
    String(String),
    Number(i64),
}

/// The mathematical shape of a [`Primitive`]: its string payload as a
/// sequence of characters, or its number.
pub enum PrimV {
    Str(Seq<char>),
    Num(i64),
}

impl View for Primitive {
    type V = PrimV;

    open spec fn view(&self) -> PrimV {
        match self {
            Primitive::String(s) => PrimV::Str(s@),
            Primitive::Number(n) => PrimV::Num(*n),
        }
    }
}

impl PartialEq for Primitive {
    fn eq(&self, other: &Self) -> (r: bool) {
        match (self, other) {
            (Primitive::String(a), Primitive::String(b)) => a.eq(b),
            (Primitive::Number(a), Primitive::Number(b)) => a == b,
            _ => false,
        }
    }
}

impl vstd::std_specs::cmp::PartialEqSpecImpl for Primitive {
    open spec fn obeys_eq_spec() -> bool {
        true
    }

    open spec fn eq_spec(&self, other: &Self) -> bool {
        self@ == other@
    }
}

impl Clone for Primitive {
    fn clone(&self) -> (r: Self)
        ensures
            r == *self,
    {
        match self {
            Primitive::String(s) => Primitive::String(s.clone()),
            Primitive::Number(n) => Primitive::Number(*n),
        }
    }
}

/// The display text of a primitive: strings render quoted, numbers render
/// as decimal digits.
pub open spec fn render_prim(p: PrimV) -> Seq<char> {
    match p {
        PrimV::Str(s) => "\""@ + s + "\""@,
        PrimV::Num(n) => dec_str(n as int),
    }
}

impl Primitive {
    /// Renders this primitive to display text.
    pub fn render(&self) -> (r: String)
        ensures
            r@ == render_prim(self@),
    {
        match self {
            Primitive::String(s) => {
                let r = "\"".to_owned().concat(s.as_str()).concat("\"");
                proof {
                    assert(r@ =~= render_prim(self@));
                }
                r
            },
            Primitive::Number(n) => crate::text::i64_to_string(*n),
        }
    }
}

/// An unordered collection of unique primitives. Membership and equality of
/// elements use full structural equality of [`Primitive`]: the string `"1"`
/// and the number `1` are distinct elements.
#[derive(Debug)]
pub struct PrimSet {
    elems: Vec<Primitive>,
}

impl View for PrimSet {
    type V = Set<PrimV>;

    closed spec fn view(&self) -> Set<PrimV> {
        self.elems_seq().to_set()
    }
}

impl PrimSet {
    /// The elements in their internal order. The order carries no meaning;
    /// it is exposed only so that operations that enumerate a set can state
    /// what they produce.
    pub closed spec fn elems_seq(&self) -> Seq<PrimV> {
        self.elems@.map_values(|p: Primitive| p@)
    }

    #[verifier::type_invariant]
    spec fn inv(self) -> bool {
        self.elems@.map_values(|p: Primitive| p@).no_duplicates()
    }

    /// How the set relates to its enumeration: the set is exactly the
    /// collection of the enumerated elements, so it is finite.
    pub proof fn lemma_enum(&self)
        ensures
            self@ == self.elems_seq().to_set(),
            self@.finite(),
    {
        broadcast use vstd::seq_lib::seq_to_set_is_finite;

    }

    /// Creates an empty set.
    pub fn new() -> (s: Self)
        ensures
            s@ == Set::<PrimV>::empty(),
            s.elems_seq() == Seq::<PrimV>::empty(),
    {
        let s = PrimSet { elems: Vec::new() };
        proof {
            assert(s.elems_seq() =~= Seq::<PrimV>::empty());
            assert(s@ =~= Set::<PrimV>::empty());
        }
        s
    }

    /// The number of elements.
    pub fn len(&self) -> (n: usize)
        ensures
            n == self@.len(),
            n == self.elems_seq().len(),
            self.elems_seq().no_duplicates(),
    {
        proof {
            use_type_invariant(self);
            self.lemma_enum();
            self.elems_seq().unique_seq_to_set();
        }
        self.elems.len()
    }

    /// Whether a primitive is an element.
    pub fn contains(&self, p: &Primitive) -> (r: bool)
        ensures
            r == self@.contains(p@),
    {
        let n = self.elems.len();
        let mut i: usize = 0;
        while i < n
            invariant
                i <= n,
                n == self.elems@.len(),
                forall|k: int| 0 <= k < i ==> self.elems_seq()[k] != p@,
            decreases n - i,
        {
            if &self.elems[i] == p {
                proof {
                    assert(self.elems_seq()[i as int] == p@);
                }
                return true;
            }
            i = i + 1;
        }
        proof {
            assert(!self.elems_seq().contains(p@));
        }
        false
    }

    /// Inserts a primitive; reports whether it was newly added.
    pub fn insert(&mut self, p: Primitive) -> (added: bool)
        ensures
            final(self)@ == old(self)@.insert(p@),
            added == !old(self)@.contains(p@),
            final(self).elems_seq() == if added {
                old(self).elems_seq().push(p@)
            } else {
                old(self).elems_seq()
            },
    {
        proof {
            use_type_invariant(&*self);
        }
        if self.contains(&p) {
            proof {
                assert(self@.insert(p@) =~= self@);
            }
            false
        } else {
            let ghost prev = self.elems_seq();
            let mut v: Vec<Primitive> = Vec::new();
            core::mem::swap(&mut v, &mut self.elems);
            v.push(p);
            proof {
                assert(v@.map_values(|q: Primitive| q@) =~= prev.push(p@));
                assert(!prev.contains(p@));
                assert forall|i: int, j: int|
                    0 <= i < prev.push(p@).len() && 0 <= j < prev.push(p@).len() && i
                        != j implies #[trigger] prev.push(p@)[i] != #[trigger] prev.push(p@)[j] by {
                    if i < prev.len() && j < prev.len() {
                        assert(prev[i] != prev[j]);
                    } else if j == prev.len() && i < prev.len() {
                        if prev[i] == p@ {
                            assert(prev.contains(p@));
                        }
                    } else if i == prev.len() && j < prev.len() {
                        if prev[j] == p@ {
                            assert(prev.contains(p@));
                        }
                    }
                }
            }
            core::mem::swap(&mut v, &mut self.elems);
            proof {
                assert(self.elems_seq() =~= prev.push(p@));
                assert forall|x: PrimV| self@.contains(x) <==> old(self)@.insert(p@).contains(
                    x,
                ) by {
                    if prev.push(p@).contains(x) {
                        let k = choose|k: int| 0 <= k < prev.push(p@).len() && prev.push(p@)[k]
                            == x;
                        if k < prev.len() {
                            assert(prev.contains(x));
                        }
                    }
                    if prev.contains(x) {
                        let k = choose|k: int| 0 <= k < prev.len() && prev[k] == x;
                        assert(prev.push(p@)[k] == x);
                    }
                    assert(prev.push(p@)[prev.len() as int] == p@);
                }
                assert(self@ =~= old(self)@.insert(p@));
            }
            true
        }
    }

    /// The element at one position of the enumeration.
    pub fn get_at(&self, i: usize) -> (p: &Primitive)
        requires
            i < self.elems_seq().len(),
        ensures
            p@ == self.elems_seq()[i as int],
    {
        &self.elems[i]
    }
}

/// The unit stored under a key: a single primitive, or a set of primitives.
/// The shape is determined dynamically by what was last written; operations
/// that require one shape fail rather than coerce when they find the other.
#[derive(Debug)]
pub enum Data {
    Primitive(Primitive),
    SetOf(PrimSet),
}

/// The mathematical shape of a [`Data`] value.
#[verifier::ext_equal]
pub enum DataV {
    Prim(PrimV),
    SetOf(Set<PrimV>),
}

impl View for Data {
    type V = DataV;

    open spec fn view(&self) -> DataV {
        match self {
            Data::Primitive(p) => DataV::Prim(p@),
            Data::SetOf(s) => DataV::SetOf(s@),
        }
    }
}

/// The display text of a stored value: a primitive renders as itself; a set
/// renders as an opaque placeholder, its elements being enumerated only by
/// the operations designed to list them.
pub open spec fn render_data(d: DataV) -> Seq<char> {
    match d {
        DataV::Prim(p) => render_prim(p),
        DataV::SetOf(_) => "<Set>"@,
    }
}

impl Data {
    /// Renders this value to display text.
    pub fn render(&self) -> (r: String)
        ensures
            r@ == render_data(self@),
    {
        match self {
            Data::Primitive(p) => p.render(),
            Data::SetOf(_) => "<Set>".to_owned(),
        }
    }
}

/// The views of a list of keys.
pub open spec fn keys_view(keys: Seq<String>) -> Seq<Seq<char>> {
    keys.map_values(|k: String| k@)
}

/// The views of a list of primitives.
pub open spec fn prims_view(vals: Seq<Primitive>) -> Seq<PrimV> {
    vals.map_values(|p: Primitive| p@)
}

/// A parsed, validated request. A command is immutable, carries no
/// reference to the store, and is produced once by the parser and consumed
/// once by the dispatcher.
#[derive(Debug)]
pub enum Command {
    Echo(String),
    Assign(String, Data),
    Get(String),
    Incr(String),
    Sadd(String, Vec<Primitive>),
    Scard(String),
    Sismember(String, Primitive),
    Sdiff(String, Vec<String>),
    SdiffStore(String, String, Vec<String>),
    Sinter(Vec<String>),
    SinterStore(String, Vec<String>),
    Sunion(Vec<String>),
    SunionStore(String, Vec<String>),
}

/// The mathematical shape of a [`Command`].
#[verifier::ext_equal]
pub enum CommandV {
    Echo(Seq<char>),
    Assign(Seq<char>, DataV),
    Get(Seq<char>),
    Incr(Seq<char>),
    Sadd(Seq<char>, Seq<PrimV>),
    Scard(Seq<char>),
    Sismember(Seq<char>, PrimV),
    Sdiff(Seq<char>, Seq<Seq<char>>),
    SdiffStore(Seq<char>, Seq<char>, Seq<Seq<char>>),
    Sinter(Seq<Seq<char>>),
    SinterStore(Seq<char>, Seq<Seq<char>>),
    Sunion(Seq<Seq<char>>),
    SunionStore(Seq<char>, Seq<Seq<char>>),
}

impl View for Command {
    type V = CommandV;

    open spec fn view(&self) -> CommandV {
        match self {
            Command::Echo(t) => CommandV::Echo(t@),
            Command::Assign(k, d) => CommandV::Assign(k@, d@),
            Command::Get(k) => CommandV::Get(k@),
            Command::Incr(k) => CommandV::Incr(k@),
            Command::Sadd(k, vals) => CommandV::Sadd(k@, prims_view(vals@)),
            Command::Scard(k) => CommandV::Scard(k@),
            Command::Sismember(k, p) => CommandV::Sismember(k@, p@),
            Command::Sdiff(base, keys) => CommandV::Sdiff(base@, keys_view(keys@)),
            Command::SdiffStore(dest, base, keys) => CommandV::SdiffStore(
                dest@,
                base@,
                keys_view(keys@),
            ),
            Command::Sinter(keys) => CommandV::Sinter(keys_view(keys@)),
            Command::SinterStore(dest, keys) => CommandV::SinterStore(dest@, keys_view(keys@)),
            Command::Sunion(keys) => CommandV::Sunion(keys_view(keys@)),
            Command::SunionStore(dest, keys) => CommandV::SunionStore(dest@, keys_view(keys@)),
        }
    }
}

} // verus!
