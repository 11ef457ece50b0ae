//! Option strings and the policy tables compiled from them.
//!
//! An option string is a run of switch definitions: a letter, then no
//! colon (the switch takes no argument), one colon (it requires one) or
//! two colons (it accepts one).

use crate::error::Error;
use std::collections::HashMap;
use vstd::prelude::*;

verus! {

/// What a switch expects after it.
#[derive(Debug, Clone, Copy, PartialEq, Eq, Structural)]
pub enum ArgType {
    /// The switch stands alone.
    NoArg,
    /// The switch must be followed by an argument.
    RequiresArg,
    /// The switch may be followed by an argument.
    AcceptsArg,
}

/// Whether `c` is a letter, as `char::is_alphabetic` answers it.
pub uninterp spec fn alphabetic(c: char) -> bool;

/// `char::is_alphabetic` tells whether Unicode counts a character as
/// alphabetic. Its answer depends on the character alone and is taken
/// here as the meaning of [`alphabetic`]; nothing more is claimed of it.
pub assume_specification[ char::is_alphabetic ](c: char) -> (letter: bool)
    ensures
        letter == alphabetic(c),
;

/// The number of colons, two at most, that directly follow position `at`.
pub open spec fn colons_after(optstring: Seq<char>, at: int) -> int {
    if at + 1 < optstring.len() && optstring[at + 1] == ':' {
        if at + 2 < optstring.len() && optstring[at + 2] == ':' {
            2
        } else {
            1
        }
    } else {
        0
    }
}

/// The policy that a switch followed by `colons` colons is given.
pub open spec fn policy_of(colons: int) -> ArgType {
    if colons == 0 {
        ArgType::NoArg
    } else if colons == 1 {
        ArgType::RequiresArg
    } else {
        ArgType::AcceptsArg
    }
}

/// The policy of the switch defined at position `at`.
pub open spec fn policy_at(optstring: Seq<char>, at: int) -> ArgType {
    policy_of(colons_after(optstring, at))
}

/// The position just behind the definition that starts at `at`.
pub open spec fn definition_end(optstring: Seq<char>, at: int) -> int {
    at + 1 + colons_after(optstring, at)
}

/// The table obtained by reading the definitions of `optstring` from
/// position `at` on into `table`, or `None` where a definition starts with
/// a character that is not a letter. A later definition of a switch
/// replaces an earlier one.
pub open spec fn compile_from(optstring: Seq<char>, at: int, table: Map<char, ArgType>) -> Option<
    Map<char, ArgType>,
>
    decreases optstring.len() - at,
{
    if at >= optstring.len() {
        Some(table)
    } else if !alphabetic(optstring[at]) {
        None
    } else {
        compile_from(
            optstring,
            definition_end(optstring, at),
            table.insert(optstring[at], policy_at(optstring, at)),
        )
    }
}

/// The table that `optstring` stands for, or `None` where it is empty or
/// malformed.
pub open spec fn compiled(optstring: Seq<char>) -> Option<Map<char, ArgType>> {
    if optstring.len() == 0 {
        None
    } else {
        compile_from(optstring, 0, Map::empty())
    }
}

/// The key under which a table files `switch`: its code point.
spec fn code_of(switch: char) -> u32 {
    switch as u32
}

/// Two characters are filed under two keys.
proof fn lemma_codes_differ(a: char, b: char)
    requires
        a != b,
    ensures
        code_of(a) != code_of(b),
{
}

/// The argument policy of each defined switch.
#[derive(Debug)]
pub struct PolicyTable {
    entries: HashMap<u32, ArgType>,
}

impl View for PolicyTable {
    type V = Map<char, ArgType>;

    closed spec fn view(&self) -> Map<char, ArgType> {
        Map::new(
            |switch: char| self.entries@.contains_key(code_of(switch)),
            |switch: char| self.entries@[code_of(switch)],
        )
    }
}

impl PolicyTable {
    /// A table that defines no switch.
    pub fn new() -> (table: PolicyTable)
        ensures
            table@ == Map::<char, ArgType>::empty(),
    {
        let table = PolicyTable { entries: HashMap::new() };
        assert(table@ =~= Map::<char, ArgType>::empty());
        table
    }

    /// Defines `switch`, replacing any policy it had.
    pub fn insert(&mut self, switch: char, policy: ArgType)
        ensures
            final(self)@ == old(self)@.insert(switch, policy),
    {
        self.entries.insert(switch as u32, policy);
        assert forall|other: char| other != switch implies #[trigger] code_of(other) != code_of(
            switch,
        ) by {
            lemma_codes_differ(other, switch);
        }
        assert(self@ =~= old(self)@.insert(switch, policy));
    }

    /// The policy of `switch`, if the table defines it.
    pub fn get(&self, switch: char) -> (policy: Option<ArgType>)
        ensures
            policy == if self@.contains_key(switch) {
                Some(self@[switch])
            } else {
                None
            },
    {
        let code: u32 = switch as u32;
        match self.entries.get(&code) {
            Some(policy) => Some(*policy),
            None => None,
        }
    }
}

/// The characters of `text`, in order.
pub(crate) fn chars_of(text: &str) -> (chars: Vec<char>)
    ensures
        chars@ == text@,
{
    let mut chars: Vec<char> = Vec::new();
    for c in it: text.chars()
        invariant
            it.seq() == text@,
            chars@ == text@.take(it.index()),
    {
        chars.push(c);
    }
    chars
}

/// Reads the switch definition that starts at position `at`, given in
/// `letter` whether the character there is a letter: the switch, its
/// policy, and the position just behind the definition.
pub fn read_definition(optstring: &Vec<char>, at: usize, letter: bool) -> (r: Result<
    (char, ArgType, usize),
    Error,
>)
    requires
        at < optstring.len(),
    ensures
        match r {
            Ok((switch, policy, end)) => {
                &&& letter
                &&& switch == optstring@[at as int]
                &&& policy == policy_at(optstring@, at as int)
                &&& end == definition_end(optstring@, at as int)
            },
            Err(e) => !letter && e == Error::BadOptionString,
        },
{
    if !letter {
        return Err(Error::BadOptionString);
    }
    let switch = optstring[at];
    if at + 1 < optstring.len() && optstring[at + 1] == ':' {
        if at + 2 < optstring.len() && optstring[at + 2] == ':' {
            Ok((switch, ArgType::AcceptsArg, at + 3))
        } else {
            Ok((switch, ArgType::RequiresArg, at + 2))
        }
    } else {
        Ok((switch, ArgType::NoArg, at + 1))
    }
}

/// Whether every switch of `table` is a letter that occurs in `optstring`.
pub open spec fn switches_from(table: Map<char, ArgType>, optstring: Seq<char>) -> bool {
    forall|switch: char| #[trigger]
        table.contains_key(switch) ==> alphabetic(switch) && optstring.contains(switch)
}

/// Reading definitions into a table whose switches are letters of the
/// option string yields such a table again.
proof fn lemma_compile_from_switches(
    optstring: Seq<char>,
    at: int,
    table: Map<char, ArgType>,
)
    requires
        0 <= at,
        switches_from(table, optstring),
    ensures
        compile_from(optstring, at, table) matches Some(full) ==> switches_from(full, optstring),
    decreases optstring.len() - at,
{
    if at < optstring.len() && alphabetic(optstring[at]) {
        let grown = table.insert(optstring[at], policy_at(optstring, at));
        assert forall|switch: char| #[trigger] grown.contains_key(switch) implies alphabetic(switch)
            && optstring.contains(switch) by {
            if switch != optstring[at] {
                assert(table.contains_key(switch));
            }
        }
        lemma_compile_from_switches(optstring, definition_end(optstring, at), grown);
    }
}

/// Every switch of a compiled table is a letter of its option string.
pub proof fn compiled_switches_are_letters(optstring: Seq<char>)
    ensures
        compiled(optstring) matches Some(table) ==> switches_from(table, optstring),
{
    lemma_compile_from_switches(optstring, 0, Map::empty());
}

/// Compiles an option string into its policy table.
///
/// Fails with `BadOptionString` where the string is empty or a definition
/// starts with a character that is not a letter, a stray colon included.
/// Where a switch is defined more than once, its last definition holds.
pub fn compile(optstring: &str) -> (r: Result<PolicyTable, Error>)
    ensures
        match r {
            Ok(table) => compiled(optstring@) == Some(table@),
            Err(e) => compiled(optstring@) is None && e == Error::BadOptionString,
        },
        optstring@.len() == 0 ==> r is Err && r->Err_0 == Error::BadOptionString,
        optstring@.len() > 0 && !alphabetic(optstring@[0]) ==> r is Err && r->Err_0
            == Error::BadOptionString,
        r matches Ok(table) ==> switches_from(table@, optstring@),
{
    let chars = chars_of(optstring);
    if chars.len() == 0 {
        return Err(Error::BadOptionString);
    }
    let mut table = PolicyTable::new();
    let mut at: usize = 0;
    proof {
        compiled_switches_are_letters(optstring@);
    }
    while at < chars.len()
        invariant
            chars@ == optstring@,
            at <= chars.len(),
            compiled(optstring@) == compile_from(optstring@, at as int, table@),
        decreases chars.len() - at,
    {
        let letter = chars[at].is_alphabetic();
        match read_definition(&chars, at, letter) {
            Err(e) => {
                return Err(e);
            },
            Ok((switch, policy, end)) => {
                table.insert(switch, policy);
                at = end;
            },
        }
    }
    Ok(table)
}

} // verus!
