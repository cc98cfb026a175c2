//! Runtime values and the environment of `let` bindings.
use vstd::prelude::*;

use crate::text::{i64_text, int_text, push_seq, string_of};

verus! {

/// A 64-bit signed integer value.
pub struct Integer {
    pub value: i64,
}

/// A boolean value.
pub struct Boolean {
    pub value: bool,
}

/// The absence of a value.
pub struct Null {}

/// A value on its way out of a `return`: it unwinds evaluation up to the
/// program boundary.
pub struct ReturnValue {
    pub value: Box<Object>,
}

/// An evaluation error, carrying its message.
pub struct Error {
    pub message: String,
}

/// The runtime values of the language.
pub enum Object {
    Integer(Integer),
    Boolean(Boolean),
    Null(Null),
    ReturnValue(ReturnValue),
    Error(Error),
}

/// A runtime value as a mathematical value.
pub enum Value {
    Integer(i64),
    Boolean(bool),
    Null,
    ReturnValue(Box<Value>),
    Error(Seq<char>),
}

pub open spec fn object_value(o: Object) -> Value
    decreases o,
{
    match o {
        Object::Integer(i) => Value::Integer(i.value),
        Object::Boolean(b) => Value::Boolean(b.value),
        Object::Null(_) => Value::Null,
        Object::ReturnValue(r) => Value::ReturnValue(Box::new(object_value(*r.value))),
        Object::Error(e) => Value::Error(e.message@),
    }
}

impl View for Object {
    type V = Value;

    open spec fn view(&self) -> Value {
        object_value(*self)
    }
}

/// The name of a value's kind, as error messages show it.
pub open spec fn kind_name(v: Value) -> Seq<char> {
    match v {
        Value::Integer(_) => seq!['I', 'N', 'T', 'E', 'G', 'E', 'R'],
        Value::Boolean(_) => seq!['B', 'O', 'O', 'L', 'E', 'A', 'N'],
        Value::Null => seq!['N', 'U', 'L', 'L'],
        Value::ReturnValue(_) => seq!['R', 'E', 'T', 'U', 'R', 'N', '_', 'V', 'A', 'L', 'U', 'E'],
        Value::Error(_) => seq!['E', 'R', 'R', 'O', 'R'],
    }
}

/// How a value is shown to a user: an integer in decimal, `true`, `false`,
/// `null`, or `ERROR: ` followed by the message.
pub open spec fn render(v: Value) -> Seq<char>
    decreases v,
{
    match v {
        Value::Integer(n) => int_text(n as int),
        Value::Boolean(b) => if b {
            seq!['t', 'r', 'u', 'e']
        } else {
            seq!['f', 'a', 'l', 's', 'e']
        },
        Value::Null => seq!['n', 'u', 'l', 'l'],
        Value::ReturnValue(inner) => render(*inner),
        Value::Error(m) => seq!['E', 'R', 'R', 'O', 'R', ':', ' '] + m,
    }
}

impl Integer {
    pub fn new(value: i64) -> (r: Self)
        ensures
            r.value == value,
    {
        Integer { value }
    }
}

impl Boolean {
    pub fn new(value: bool) -> (r: Self)
        ensures
            r.value == value,
    {
        Boolean { value }
    }
}

impl ReturnValue {
    pub fn new(value: Object) -> (r: Self)
        ensures
            r.value@ == value@,
    {
        ReturnValue { value: Box::new(value) }
    }

    /// The wrapped value.
    pub fn take_value(self) -> (r: Object)
        ensures
            r@ == self.value@,
    {
        *self.value
    }
}

impl Object {
    /// The name of the value's kind.
    pub fn type_obj(&self) -> (r: String)
        ensures
            r@ == kind_name(self@),
    {
        match self {
            Object::Integer(_) => string_of(&['I', 'N', 'T', 'E', 'G', 'E', 'R']),
            Object::Boolean(_) => string_of(&['B', 'O', 'O', 'L', 'E', 'A', 'N']),
            Object::Null(_) => string_of(&['N', 'U', 'L', 'L']),
            Object::ReturnValue(_) => string_of(
                &['R', 'E', 'T', 'U', 'R', 'N', '_', 'V', 'A', 'L', 'U', 'E'],
            ),
            Object::Error(_) => string_of(&['E', 'R', 'R', 'O', 'R']),
        }
    }

    /// The text shown for the value.
    pub fn inspect(&self) -> (r: String)
        ensures
            r@ == render(self@),
        decreases self,
    {
        match self {
            Object::Integer(i) => i64_text(i.value),
            Object::Boolean(b) => if b.value {
                string_of(&['t', 'r', 'u', 'e'])
            } else {
                string_of(&['f', 'a', 'l', 's', 'e'])
            },
            Object::Null(_) => string_of(&['n', 'u', 'l', 'l']),
            Object::ReturnValue(r) => r.value.inspect(),
            Object::Error(e) => {
                let mut out = string_of(&['E', 'R', 'R', 'O', 'R', ':', ' ']);
                push_seq(&mut out, &e.message);
                out
            },
        }
    }

    /// A copy of the value.
    pub fn clone_object(&self) -> (r: Object)
        ensures
            r@ == self@,
        decreases self,
    {
        match self {
            Object::Integer(i) => Object::Integer(Integer { value: i.value }),
            Object::Boolean(b) => Object::Boolean(Boolean { value: b.value }),
            Object::Null(_) => Object::Null(Null {}),
            Object::ReturnValue(r) => Object::ReturnValue(
                ReturnValue { value: Box::new(r.value.clone_object()) },
            ),
            Object::Error(e) => Object::Error(Error { message: e.message.clone() }),
        }
    }
}

/// Whether two texts hold the same characters.
fn same_text(a: &str, b: &str) -> (r: bool)
    ensures
        r == (a@ == b@),
{
    let n = a.unicode_len();
    if n != b.unicode_len() {
        return false;
    }
    let mut i: usize = 0;
    while i < n
        invariant
            n == a@.len() == b@.len(),
            i <= n,
            forall|j: int| 0 <= j < i ==> a@[j] == b@[j],
        decreases n - i,
    {
        if a.get_char(i) != b.get_char(i) {
            return false;
        }
        i = i + 1;
    }
    assert(a@ =~= b@);
    true
}

/// The bindings of names to values made by `let` in one session.
///
/// The bindings are kept as a vector of pairs whose names are unique, not in
/// a `HashMap` keyed by `String`: vstd specifies `HashMap` only for key types
/// known to follow its key model, and `String` is not among them, so a map
/// keyed by names could not be reasoned about without assuming that model.
pub struct Environment {
    store: Vec<(String, Object)>,
}

impl Environment {
    /// Each name is bound at most once.
    pub closed spec fn wf(&self) -> bool {
        forall|i: int, j: int|
            0 <= i < j < self.store@.len() ==> #[trigger] self.store@[i].0@
                != #[trigger] self.store@[j].0@
    }

    /// The bindings, as a map from names to values.
    pub closed spec fn bindings(&self) -> Map<Seq<char>, Value> {
        Map::new(
            |k: Seq<char>| exists|i: int| 0 <= i < self.store@.len() && self.store@[i].0@ == k,
            |k: Seq<char>|
                self.store@[choose|i: int|
                    0 <= i < self.store@.len() && self.store@[i].0@ == k].1@,
        )
    }

    /// An environment with no bindings.
    pub fn new() -> (e: Self)
        ensures
            e.wf(),
            e.bindings() == Map::<Seq<char>, Value>::empty(),
    {
        let e = Environment { store: Vec::new() };
        assert(e.bindings() =~= Map::<Seq<char>, Value>::empty());
        e
    }

    fn find(&self, name: &str) -> (r: Option<usize>)
        requires
            self.wf(),
        ensures
            r is Some ==> r->0 < self.store@.len() && self.store@[r->0 as int].0@ == name@,
            r is None ==> !self.bindings().contains_key(name@),
    {
        let mut i: usize = 0;
        while i < self.store.len()
            invariant
                i <= self.store@.len(),
                forall|j: int| 0 <= j < i ==> self.store@[j].0@ != name@,
            decreases self.store@.len() - i,
        {
            if same_text(self.store[i].0.as_str(), name) {
                return Some(i);
            }
            i = i + 1;
        }
        None
    }

    proof fn lemma_lookup(&self, i: int)
        requires
            self.wf(),
            0 <= i < self.store@.len(),
        ensures
            self.bindings().contains_key(self.store@[i].0@),
            self.bindings()[self.store@[i].0@] == self.store@[i].1@,
    {
        let k = self.store@[i].0@;
        let j = choose|j: int| 0 <= j < self.store@.len() && self.store@[j].0@ == k;
        assert(0 <= j < self.store@.len() && self.store@[j].0@ == k);
        if j < i {
            assert(self.store@[j].0@ != self.store@[i].0@);
        } else if i < j {
            assert(self.store@[i].0@ != self.store@[j].0@);
        }
    }

    /// The value bound to `name`, if any.
    pub fn get(&self, name: &str) -> (r: Option<&Object>)
        requires
            self.wf(),
        ensures
            r is Some <==> self.bindings().contains_key(name@),
            r is Some ==> r->0@ == self.bindings()[name@],
    {
        match self.find(name) {
            Some(i) => {
                proof {
                    self.lemma_lookup(i as int);
                }
                Some(&self.store[i].1)
            },
            None => None,
        }
    }

    /// Binds `name` to `val`, replacing an earlier binding of it.
    pub fn set(&mut self, name: &str, val: Object) -> (r: Option<&Object>)
        requires
            old(self).wf(),
        ensures
            final(self).wf(),
            final(self).bindings() == old(self).bindings().insert(name@, val@),
            r matches Some(o) && o@ == val@,
    {
        let i = self.bind(name, val);
        Some(&self.store[i].1)
    }

    /// Binds `name` to `val` and says where the binding is kept.
    fn bind(&mut self, name: &str, val: Object) -> (idx: usize)
        requires
            old(self).wf(),
        ensures
            final(self).wf(),
            final(self).bindings() == old(self).bindings().insert(name@, val@),
            idx < final(self).store@.len(),
            final(self).store@[idx as int].1@ == val@,
    {
        let ghost v = val@;
        match self.find(name) {
            Some(i) => {
                let key = name.to_owned();
                let ghost before = self.store@;
                self.store.set(i, (key, val));
                proof {
                    assert forall|a: int, b: int|
                        0 <= a < b < self.store@.len() implies #[trigger] self.store@[a].0@
                        != #[trigger] self.store@[b].0@ by {
                        assert(before[a].0@ != before[b].0@);
                    }
                    assert forall|k: Seq<char>|
                        #[trigger] self.bindings().contains_key(k) == old(self).bindings().insert(
                            name@,
                            v,
                        ).contains_key(k) by {
                        if exists|j: int| 0 <= j < before.len() && before[j].0@ == k {
                            let j = choose|j: int| 0 <= j < before.len() && before[j].0@ == k;
                            assert(self.store@[j].0@ == k || j == i);
                        }
                        if exists|j: int| 0 <= j < self.store@.len() && self.store@[j].0@ == k {
                            let j = choose|j: int|
                                0 <= j < self.store@.len() && self.store@[j].0@ == k;
                            assert(before[j].0@ == k || j == i);
                        }
                    }
                    assert forall|k: Seq<char>| #[trigger]
                        self.bindings().contains_key(k) implies self.bindings()[k] == old(
                        self,
                    ).bindings().insert(name@, v)[k] by {
                        let j = choose|j: int|
                            0 <= j < self.store@.len() && self.store@[j].0@ == k;
                        self.lemma_lookup(j);
                        if j != i {
                            old(self).lemma_lookup(j);
                        }
                    }
                    assert(self.bindings() =~= old(self).bindings().insert(name@, v));
                }
                i
            },
            None => {
                let key = name.to_owned();
                let ghost before = self.store@;
                let idx = self.store.len();
                self.store.push((key, val));
                proof {
                    assert forall|a: int, b: int|
                        0 <= a < b < self.store@.len() implies #[trigger] self.store@[a].0@
                        != #[trigger] self.store@[b].0@ by {
                        if b == before.len() {
                            assert(old(self).bindings().contains_key(before[a].0@));
                        } else {
                            assert(before[a].0@ != before[b].0@);
                        }
                    }
                    assert forall|k: Seq<char>|
                        #[trigger] self.bindings().contains_key(k) == old(self).bindings().insert(
                            name@,
                            v,
                        ).contains_key(k) by {
                        if exists|j: int| 0 <= j < before.len() && before[j].0@ == k {
                            let j = choose|j: int| 0 <= j < before.len() && before[j].0@ == k;
                            assert(self.store@[j].0@ == k);
                        }
                        if k == name@ {
                            assert(self.store@[before.len() as int].0@ == k);
                        }
                        if exists|j: int| 0 <= j < self.store@.len() && self.store@[j].0@ == k {
                            let j = choose|j: int|
                                0 <= j < self.store@.len() && self.store@[j].0@ == k;
                            if j < before.len() {
                                assert(before[j].0@ == k);
                            }
                        }
                    }
                    assert forall|k: Seq<char>| #[trigger]
                        self.bindings().contains_key(k) implies self.bindings()[k] == old(
                        self,
                    ).bindings().insert(name@, v)[k] by {
                        let j = choose|j: int|
                            0 <= j < self.store@.len() && self.store@[j].0@ == k;
                        self.lemma_lookup(j);
                        if j < before.len() {
                            old(self).lemma_lookup(j);
                        }
                    }
                    assert(self.bindings() =~= old(self).bindings().insert(name@, v));
                }
                idx
            },
        }
    }
}

} // verus!
