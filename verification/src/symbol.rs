//! The symbol table: the names that are known, each with its symbol.

use crate::text::same_text;
use vstd::prelude::*;
use vstd::string::*;

verus! {

/// What a name stands for.
#[derive(Clone, Copy, Debug)]
pub enum Symbol<'a> {
    /// A type that the language brings along.
    Native { name: &'a str },
}

/// The bytes of the name of a symbol.
pub open spec fn symbol_name(symbol: Symbol) -> Seq<u8> {
    match symbol {
        Symbol::Native { name } => name.spec_bytes(),
    }
}

impl<'a> Symbol<'a> {
    /// The name of the symbol.
    pub fn name(&self) -> (name: &'a str)
        ensures
            name.spec_bytes() == symbol_name(*self),
    {
        match self {
            Symbol::Native { name } => name,
        }
    }

    /// The type of the integers.
    pub fn number() -> (symbol: Symbol<'static>)
        ensures
            symbol_name(symbol) == "Number".spec_bytes(),
    {
        Symbol::Native { name: "Number" }
    }

    /// The type of the decimals.
    pub fn decimal() -> (symbol: Symbol<'static>)
        ensures
            symbol_name(symbol) == "Decimal".spec_bytes(),
    {
        Symbol::Native { name: "Decimal" }
    }

    /// The type of the arrays.
    pub fn array() -> (symbol: Symbol<'static>)
        ensures
            symbol_name(symbol) == "Array".spec_bytes(),
    {
        Symbol::Native { name: "Array" }
    }
}

/// The symbols of a table, by the bytes of their names.
pub type Symbols<'a> = Map<Seq<u8>, Symbol<'a>>;

/// The native types, defined one after the other.
pub open spec fn native_symbols() -> Symbols<'static> {
    Map::empty().insert(
        "Number".spec_bytes(),
        Symbol::Native { name: "Number" },
    ).insert("Decimal".spec_bytes(), Symbol::Native { name: "Decimal" }).insert(
        "Array".spec_bytes(),
        Symbol::Native { name: "Array" },
    )
}

/// A table of symbols. A name has at most one symbol: the one that was
/// defined last.
pub struct SymbolTable<'a> {
    symbols: Vec<Symbol<'a>>,
    members: Ghost<Symbols<'a>>,
}

impl<'a> View for SymbolTable<'a> {
    type V = Symbols<'a>;

    closed spec fn view(&self) -> Symbols<'a> {
        self.members@
    }
}

impl<'a> SymbolTable<'a> {
    /// The names are distinct, and each symbol stands under its name.
    pub closed spec fn wf(&self) -> bool {
        &&& forall|i: int|
            0 <= i < self.symbols.len() ==> self.members@.dom().contains(
                symbol_name(#[trigger] self.symbols[i]),
            ) && self.members@[symbol_name(self.symbols[i])] == self.symbols[i]
        &&& forall|key: Seq<u8>| #[trigger]
            self.members@.dom().contains(key) ==> exists|i: int|
                0 <= i < self.symbols.len() && symbol_name(#[trigger] self.symbols[i]) == key
        &&& forall|i: int, j: int|
            0 <= i < j < self.symbols.len() ==> symbol_name(#[trigger] self.symbols[i])
                != symbol_name(#[trigger] self.symbols[j])
    }

    /// A table in which the native types are defined.
    pub fn new() -> (table: SymbolTable<'a>)
        ensures
            table.wf(),
            table@ == native_symbols(),
    {
        let mut table = SymbolTable { symbols: Vec::new(), members: Ghost(Map::empty()) };
        table.define(Symbol::Native { name: "Number" });
        table.define(Symbol::Native { name: "Decimal" });
        table.define(Symbol::Native { name: "Array" });
        table
    }

    /// Defines a symbol under its name, in place of the one that the name
    /// had.
    pub fn define(&mut self, symbol: Symbol<'a>)
        requires
            old(self).wf(),
        ensures
            final(self).wf(),
            final(self)@ == old(self)@.insert(symbol_name(symbol), symbol),
    {
        let ghost key = symbol_name(symbol);
        let name = symbol.name();
        let mut found: Option<usize> = None;
        let mut i: usize = 0;
        while i < self.symbols.len()
            invariant_except_break
                found is None,
                forall|k: int| 0 <= k < i ==> symbol_name(#[trigger] self.symbols[k]) != key,
            invariant
                i <= self.symbols.len(),
                name.spec_bytes() == key,
            ensures
                match found {
                    Some(at) => at < self.symbols.len() && symbol_name(self.symbols[at as int])
                        == key,
                    None => forall|k: int|
                        0 <= k < self.symbols.len() ==> symbol_name(#[trigger] self.symbols[k])
                            != key,
                },
            decreases self.symbols.len() - i,
        {
            if same_text(self.symbols[i].name(), name) {
                found = Some(i);
                break;
            }
            i += 1;
        }
        proof {
            self.members@ = self.members@.insert(key, symbol);
        }
        match found {
            Some(at) => {
                self.symbols.push(symbol);
                self.symbols.swap_remove(at);
                assert forall|k: int| 0 <= k < self.symbols.len() implies self.members@.dom().contains(
                    symbol_name(#[trigger] self.symbols[k]),
                ) && self.members@[symbol_name(self.symbols[k])] == self.symbols[k] by {
                    if k != at {
                        assert(self.symbols[k] == old(self).symbols[k]);
                        assert(symbol_name(old(self).symbols[k]) != symbol_name(
                            old(self).symbols[at as int],
                        ));
                    }
                }
                assert forall|name: Seq<u8>| #[trigger]
                    self.members@.dom().contains(name) implies exists|k: int|
                    0 <= k < self.symbols.len() && symbol_name(#[trigger] self.symbols[k])
                        == name by {
                    if name == key {
                        assert(symbol_name(self.symbols[at as int]) == name);
                    } else {
                        let k = choose|k: int|
                            0 <= k < old(self).symbols.len() && symbol_name(
                                #[trigger] old(self).symbols[k],
                            ) == name;
                        assert(self.symbols[k] == old(self).symbols[k]);
                    }
                }
                assert forall|a: int, b: int| 0 <= a < b < self.symbols.len() implies symbol_name(
                    #[trigger] self.symbols[a],
                ) != symbol_name(#[trigger] self.symbols[b]) by {
                    if a != at {
                        assert(self.symbols[a] == old(self).symbols[a]);
                    }
                    if b != at {
                        assert(self.symbols[b] == old(self).symbols[b]);
                    }
                    assert(symbol_name(old(self).symbols[a]) != symbol_name(old(self).symbols[b]));
                }
            },
            None => {
                self.symbols.push(symbol);
                let ghost last = self.symbols.len() - 1;
                assert forall|k: int| 0 <= k < self.symbols.len() implies self.members@.dom().contains(
                    symbol_name(#[trigger] self.symbols[k]),
                ) && self.members@[symbol_name(self.symbols[k])] == self.symbols[k] by {
                    if k != last {
                        assert(self.symbols[k] == old(self).symbols[k]);
                    }
                }
                assert forall|name: Seq<u8>| #[trigger]
                    self.members@.dom().contains(name) implies exists|k: int|
                    0 <= k < self.symbols.len() && symbol_name(#[trigger] self.symbols[k])
                        == name by {
                    if name == key {
                        assert(symbol_name(self.symbols[last]) == name);
                    } else {
                        let k = choose|k: int|
                            0 <= k < old(self).symbols.len() && symbol_name(
                                #[trigger] old(self).symbols[k],
                            ) == name;
                        assert(self.symbols[k] == old(self).symbols[k]);
                    }
                }
                assert forall|a: int, b: int| 0 <= a < b < self.symbols.len() implies symbol_name(
                    #[trigger] self.symbols[a],
                ) != symbol_name(#[trigger] self.symbols[b]) by {
                    assert(self.symbols[a] == old(self).symbols[a]);
                    if b != last {
                        assert(self.symbols[b] == old(self).symbols[b]);
                    }
                }
            },
        }
    }

    /// The symbol that is defined under `name`, if one is.
    pub fn lookup(&self, name: &'a str) -> (found: Option<&Symbol<'a>>)
        requires
            self.wf(),
        ensures
            match found {
                Some(symbol) => self@.dom().contains(name.spec_bytes()) && *symbol
                    == self@[name.spec_bytes()],
                None => !self@.dom().contains(name.spec_bytes()),
            },
    {
        let mut i: usize = 0;
        while i < self.symbols.len()
            invariant
                i <= self.symbols.len(),
                self.wf(),
                forall|k: int|
                    0 <= k < i ==> symbol_name(#[trigger] self.symbols[k]) != name.spec_bytes(),
            decreases self.symbols.len() - i,
        {
            if same_text(self.symbols[i].name(), name) {
                return Some(&self.symbols[i]);
            }
            i += 1;
        }
        None
    }
}

} // verus!
