//! The environment of an evaluation: activation records and the call stack.
//!
//! An activation record binds names to values and to native operations. A
//! name has at most one binding, and the last one made for it counts.

use crate::text::same_text;
use crate::value::{Datum, Value};
use vstd::prelude::*;
use vstd::string::*;
use vstd::utf8::encode_utf8;

verus! {

/// An operation that the evaluator brings along.
#[derive(PartialEq, Eq, Structural, Clone, Copy, Debug)]
pub enum Native {
    /// The transpose of a matrix.
    Transpose,
}

/// What a name is bound to.
#[derive(Debug)]
pub enum Binding {
    Value(Value),
    Native(Native),
}

/// A binding as the contracts of the evaluator see it: a value by its
/// datum.
pub enum BindingView {
    Value(Datum),
    Native(Native),
}

impl View for Binding {
    type V = BindingView;

    open spec fn view(&self) -> BindingView {
        match self {
            Binding::Value(value) => BindingView::Value(value.datum()),
            Binding::Native(native) => BindingView::Native(*native),
        }
    }
}

/// The bindings of one scope, by the bytes of their names.
pub type Bindings = Map<Seq<u8>, Binding>;

/// The bindings of one scope.
pub struct ActivationRecord {
    names: Vec<String>,
    bindings: Vec<Binding>,
    members: Ghost<Bindings>,
}

impl View for ActivationRecord {
    type V = Bindings;

    closed spec fn view(&self) -> Bindings {
        self.members@
    }
}

impl ActivationRecord {
    /// The bytes of the name at `i`.
    spec fn name(&self, i: int) -> Seq<u8> {
        encode_utf8(self.names[i]@)
    }

    /// The names are distinct, and the bindings are those of the names.
    pub closed spec fn wf(&self) -> bool {
        &&& self.names.len() == self.bindings.len()
        &&& forall|i: int|
            0 <= i < self.names.len() ==> self.members@.dom().contains(#[trigger] self.name(i))
                && self.members@[self.name(i)] == self.bindings[i]
        &&& forall|key: Seq<u8>| #[trigger]
            self.members@.dom().contains(key) ==> exists|i: int|
                0 <= i < self.names.len() && #[trigger] self.name(i) == key
        &&& forall|i: int, j: int|
            0 <= i < j < self.names.len() ==> #[trigger] self.name(i) != #[trigger] self.name(j)
    }

    /// A record without bindings.
    pub fn new() -> (record: ActivationRecord)
        ensures
            record.wf(),
            record@ == Bindings::empty(),
    {
        ActivationRecord { names: Vec::new(), bindings: Vec::new(), members: Ghost(Map::empty()) }
    }

    /// Where the binding of `key` stands, if it has one.
    fn position(&self, key: &str) -> (found: Option<usize>)
        requires
            self.wf(),
        ensures
            match found {
                Some(i) => i < self.names.len() && self.name(i as int) == key.spec_bytes(),
                None => !self@.dom().contains(key.spec_bytes()),
            },
    {
        let mut i: usize = 0;
        while i < self.names.len()
            invariant
                i <= self.names.len(),
                self.wf(),
                forall|k: int| 0 <= k < i ==> #[trigger] self.name(k) != key.spec_bytes(),
            decreases self.names.len() - i,
        {
            if same_text(self.names[i].as_str(), key) {
                return Some(i);
            }
            i += 1;
        }
        None
    }

    /// The binding of `key`, if it has one.
    pub fn lookup(&self, key: &str) -> (found: Option<&Binding>)
        requires
            self.wf(),
        ensures
            match found {
                Some(binding) => self@.dom().contains(key.spec_bytes()) && *binding
                    == self@[key.spec_bytes()],
                None => !self@.dom().contains(key.spec_bytes()),
            },
    {
        match self.position(key) {
            Some(i) => Some(&self.bindings[i]),
            None => None,
        }
    }

    /// The value that `key` is bound to, if it is bound to one.
    pub fn get(&self, key: &String) -> (found: Option<&Value>)
        requires
            self.wf(),
        ensures
            match found {
                Some(value) => self@.dom().contains(encode_utf8(key@))
                    && self@[encode_utf8(key@)] == Binding::Value(*value),
                None => !self@.dom().contains(encode_utf8(key@))
                    || self@[encode_utf8(key@)] is Native,
            },
    {
        match self.lookup(key.as_str()) {
            Some(Binding::Value(value)) => Some(value),
            _ => None,
        }
    }

    /// Binds `key`, and returns the binding that it had.
    pub fn bind(&mut self, key: String, binding: Binding) -> (previous: Option<Binding>)
        requires
            old(self).wf(),
        ensures
            final(self).wf(),
            final(self)@ == old(self)@.insert(encode_utf8(key@), binding),
            match previous {
                Some(was) => old(self)@.dom().contains(encode_utf8(key@)) && was == old(self)@[encode_utf8(key@)],
                None => !old(self)@.dom().contains(encode_utf8(key@)),
            },
    {
        let ghost text = encode_utf8(key@);
        let found = self.position(key.as_str());
        proof {
            self.members@ = self.members@.insert(text, binding);
        }
        match found {
            Some(i) => {
                self.bindings.push(binding);
                let previous = self.bindings.swap_remove(i);
                assert forall|k: int| 0 <= k < self.names.len() implies self.members@.dom().contains(
                    #[trigger] self.name(k),
                ) && self.members@[self.name(k)] == self.bindings[k] by {
                    assert(self.name(k) == old(self).name(k));
                    if k != i {
                        assert(old(self).name(k) != old(self).name(i as int));
                    }
                }
                assert forall|key: Seq<u8>| #[trigger]
                    self.members@.dom().contains(key) implies exists|k: int|
                    0 <= k < self.names.len() && #[trigger] self.name(k) == key by {
                    if key == text {
                        assert(self.name(i as int) == key);
                    } else {
                        let k = choose|k: int|
                            0 <= k < old(self).names.len() && #[trigger] old(self).name(k) == key;
                        assert(self.name(k) == key);
                    }
                }
                assert forall|a: int, b: int| 0 <= a < b < self.names.len() implies #[trigger]
                    self.name(a) != #[trigger] self.name(b) by {
                    assert(self.name(a) == old(self).name(a));
                    assert(self.name(b) == old(self).name(b));
                }
                Some(previous)
            },
            None => {
                self.names.push(key);
                self.bindings.push(binding);
                let ghost last = self.names.len() - 1;
                assert(self.name(last) == text);
                assert forall|k: int| 0 <= k < self.names.len() implies self.members@.dom().contains(
                    #[trigger] self.name(k),
                ) && self.members@[self.name(k)] == self.bindings[k] by {
                    if k != last {
                        assert(self.name(k) == old(self).name(k));
                    }
                }
                assert forall|key: Seq<u8>| #[trigger]
                    self.members@.dom().contains(key) implies exists|k: int|
                    0 <= k < self.names.len() && #[trigger] self.name(k) == key by {
                    if key == text {
                        assert(self.name(last) == key);
                    } else {
                        let k = choose|k: int|
                            0 <= k < old(self).names.len() && #[trigger] old(self).name(k) == key;
                        assert(self.name(k) == key);
                    }
                }
                assert forall|a: int, b: int| 0 <= a < b < self.names.len() implies #[trigger]
                    self.name(a) != #[trigger] self.name(b) by {
                    assert(self.name(a) == old(self).name(a));
                    if b != last {
                        assert(self.name(b) == old(self).name(b));
                    }
                }
                None
            },
        }
    }

    /// Binds `key` to `value`, and returns the value that it was bound to.
    pub fn insert(&mut self, key: String, value: Value) -> (previous: Option<Value>)
        requires
            old(self).wf(),
        ensures
            final(self).wf(),
            final(self)@ == old(self)@.insert(encode_utf8(key@), Binding::Value(value)),
            match previous {
                Some(was) => old(self)@.dom().contains(encode_utf8(key@)) && old(self)@[encode_utf8(key@)] == Binding::Value(was),
                None => !old(self)@.dom().contains(encode_utf8(key@)) || old(self)@[encode_utf8(key@)] is Native,
            },
    {
        match self.bind(key, Binding::Value(value)) {
            Some(Binding::Value(was)) => Some(was),
            _ => None,
        }
    }
}

/// The scopes of an evaluation, the innermost last.
pub struct CallStack {
    records: Vec<ActivationRecord>,
}

impl View for CallStack {
    type V = Seq<Bindings>;

    closed spec fn view(&self) -> Seq<Bindings> {
        Seq::new(self.records.len() as nat, |i: int| self.records[i]@)
    }
}

impl CallStack {
    /// Every record of the stack is well formed.
    pub closed spec fn wf(&self) -> bool {
        forall|i: int| 0 <= i < self.records.len() ==> (#[trigger] self.records[i]).wf()
    }

    /// A stack without scopes.
    pub fn new() -> (stack: CallStack)
        ensures
            stack.wf(),
            stack@ == Seq::<Bindings>::empty(),
    {
        let stack = CallStack { records: Vec::new() };
        assert(stack@ =~= Seq::<Bindings>::empty());
        stack
    }

    /// A stack of one scope.
    pub fn from_record(record: ActivationRecord) -> (stack: CallStack)
        requires
            record.wf(),
        ensures
            stack.wf(),
            stack@ == seq![record@],
    {
        let mut stack = CallStack::new();
        stack.push(record);
        assert(stack@ =~= seq![record@]);
        stack
    }

    /// Enters a scope.
    pub fn push(&mut self, record: ActivationRecord)
        requires
            old(self).wf(),
            record.wf(),
        ensures
            final(self).wf(),
            final(self)@ == old(self)@.push(record@),
    {
        self.records.push(record);
        assert(self@ =~= old(self)@.push(record@));
    }

    /// The innermost scope.
    pub fn peek(&self) -> (top: Option<&ActivationRecord>)
        requires
            self.wf(),
        ensures
            match top {
                Some(record) => self@.len() > 0 && record@ == self@.last() && record.wf(),
                None => self@.len() == 0,
            },
    {
        let count = self.records.len();
        if count == 0 {
            None
        } else {
            Some(&self.records[count - 1])
        }
    }

    /// The innermost scope, to be changed in place.
    pub fn peek_mut(&mut self) -> (top: Option<&mut ActivationRecord>)
        requires
            old(self).wf(),
        ensures
            match top {
                Some(record) => {
                    &&& old(self)@.len() > 0
                    &&& record@ == old(self)@.last()
                    &&& record.wf()
                    &&& final(self)@ == old(self)@.drop_last().push(final(record)@)
                    &&& final(record).wf() ==> final(self).wf()
                },
                None => old(self)@.len() == 0 && final(self)@ == old(self)@ && final(self).wf(),
            },
    {
        let count = self.records.len();
        if count == 0 {
            None
        } else {
            Some(&mut self.records[count - 1])
        }
    }

    /// Leaves the innermost scope.
    pub fn pop(&mut self) -> (top: Option<ActivationRecord>)
        requires
            old(self).wf(),
        ensures
            final(self).wf(),
            match top {
                Some(record) => old(self)@.len() > 0 && record@ == old(self)@.last() && record.wf()
                    && final(self)@ == old(self)@.drop_last(),
                None => old(self)@.len() == 0 && final(self)@ == old(self)@,
            },
    {
        let top = self.records.pop();
        assert(top is Some ==> self@ =~= old(self)@.drop_last());
        assert(top is None ==> self@ =~= old(self)@);
        top
    }

    /// The number of scopes.
    pub fn len(&self) -> (count: usize)
        ensures
            count == self@.len(),
    {
        self.records.len()
    }
}

} // verus!
