//! The builtin functions: their names, and how many arguments each accepts.

use vstd::prelude::*;
use vstd::string::*;
use crate::text::same_text;

verus! {

/// The range of argument counts that a function accepts. Each bound is
/// inclusive where present; an absent bound leaves that side open.
#[derive(Debug, Clone, Copy, PartialEq)]
pub struct Arity {
    pub lower: Option<u8>,
    pub upper: Option<u8>,
}

impl Arity {
    /// Whether `length` arguments lie within both bounds.
    pub open spec fn admits(self, length: int) -> bool {
        &&& self.lower matches Some(low) ==> low <= length
        &&& self.upper matches Some(high) ==> length <= high
    }

    /// Whether a call may pass `length` arguments.
    pub fn is_valid(&self, length: usize) -> (valid: bool)
        ensures
            valid == self.admits(length as int),
    {
        let above = match self.lower {
            Some(low) => low as usize <= length,
            None => true,
        };
        let below = match self.upper {
            Some(high) => length <= high as usize,
            None => true,
        };
        above && below
    }
}

/// The operations behind the builtin functions.
#[derive(Debug, Clone, Copy, PartialEq, Eq, Structural)]
pub enum Builtin {
    /// The sine of one argument, taken in radians.
    Sine,
    /// The natural logarithm of one argument.
    Log,
    /// A fresh sample from the uniform distribution on the half-open unit interval.
    Rand,
    /// The square root of one argument.
    Sqrt,
}

/// An entry of the registry: a builtin under its canonical name, with the
/// argument counts it accepts.
#[derive(Debug, Clone)]
pub struct Function {
    pub name: String,
    pub arity: Arity,
    pub function: Builtin,
}

/// The model of a registry entry.
pub ghost struct Entry {
    pub name: Seq<char>,
    pub arity: Arity,
    pub function: Builtin,
}

impl View for Function {
    type V = Entry;

    open spec fn view(&self) -> Entry {
        Entry { name: self.name@, arity: self.arity, function: self.function }
    }
}

/// The arity of a function that takes exactly `count` arguments.
pub open spec fn exactly(count: u8) -> Arity {
    Arity { lower: Some(count), upper: Some(count) }
}

/// The registry as a mathematical function from names to entries. The sine is
/// reachable under two names and is registered under the longer one.
pub open spec fn registry(name: Seq<char>) -> Option<Entry> {
    if name == seq!['s', 'i', 'n'] || name == seq!['s', 'i', 'n', 'e'] {
        Some(Entry { name: seq!['s', 'i', 'n', 'e'], arity: exactly(1), function: Builtin::Sine })
    } else if name == seq!['l', 'o', 'g'] {
        Some(Entry { name: seq!['l', 'o', 'g'], arity: exactly(1), function: Builtin::Log })
    } else if name == seq!['r', 'a', 'n', 'd'] {
        Some(Entry { name: seq!['r', 'a', 'n', 'd'], arity: exactly(0), function: Builtin::Rand })
    } else if name == seq!['s', 'q', 'r', 't'] {
        Some(Entry { name: seq!['s', 'q', 'r', 't'], arity: exactly(1), function: Builtin::Sqrt })
    } else {
        None
    }
}

/// The entry of a builtin that takes exactly `count` arguments.
fn entry(name: &str, count: u8, function: Builtin) -> (made: Function)
    ensures
        made@ == (Entry { name: name@, arity: exactly(count), function }),
{
    Function {
        name: String::from_str(name),
        arity: Arity { lower: Some(count), upper: Some(count) },
        function,
    }
}

/// Looks a name up in the registry.
pub fn lookup(name: &str) -> (found: Option<Function>)
    ensures
        (match found {
            Some(function) => registry(name@) == Some(function@),
            None => registry(name@) is None,
        }),
{
    proof {
        reveal_strlit("sin");
        reveal_strlit("sine");
        reveal_strlit("log");
        reveal_strlit("rand");
        reveal_strlit("sqrt");
        assert("sin"@ =~= seq!['s', 'i', 'n']);
        assert("sine"@ =~= seq!['s', 'i', 'n', 'e']);
        assert("log"@ =~= seq!['l', 'o', 'g']);
        assert("rand"@ =~= seq!['r', 'a', 'n', 'd']);
        assert("sqrt"@ =~= seq!['s', 'q', 'r', 't']);
    }
    if same_text(name, "sin") || same_text(name, "sine") {
        Some(entry("sine", 1, Builtin::Sine))
    } else if same_text(name, "log") {
        Some(entry("log", 1, Builtin::Log))
    } else if same_text(name, "rand") {
        Some(entry("rand", 0, Builtin::Rand))
    } else if same_text(name, "sqrt") {
        Some(entry("sqrt", 1, Builtin::Sqrt))
    } else {
        None
    }
}

} // verus!
