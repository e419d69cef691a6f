use vstd::prelude::*;

verus! {

/// The failure signals of the parser. A malformed input aborts the whole
/// parse: the caller receives either a complete molecular graph or one of
/// these, never a partial graph.
#[derive(Debug, PartialEq, Eq)]
pub enum ParseError {
    /// A ring-closure digit appeared before any atom was placed.
    RingWithoutAtom,
    /// A branch was opened before any atom was placed.
    BranchWithoutAtom,
    /// A branch was closed with no branch open.
    UnmatchedBranchClose,
}

/// The parser's abstract state: the atoms and bonds emitted so far, the
/// current atom, the pending ring-closure table, and the branch-return
/// stack.
#[verifier::ext_equal]
pub struct ParseState {
    /// Atomic numbers in creation order; the index of an entry is the
    /// atom's identity.
    pub atoms: Seq<u32>,
    /// Bond endpoint pairs in creation order.
    pub bonds: Seq<(usize, usize)>,
    /// The atom to which the next sequential bond attaches.
    pub last: Option<usize>,
    /// For each pending ring label, the atom that opened it.
    pub rings: Map<char, usize>,
    /// The atoms to return to when open branches close, innermost last.
    pub stack: Seq<usize>,
}

/// The state before any character has been consumed.
pub open spec fn initial_state() -> ParseState {
    ParseState {
        atoms: Seq::empty(),
        bonds: Seq::empty(),
        last: None,
        rings: Map::empty(),
        stack: Seq::empty(),
    }
}

/// The single-character element symbols of the grammar.
pub open spec fn is_single_element(c: char) -> bool {
    c == 'c' || c == 'n' || c == 'o' || c == 'f'
}

/// The atomic number of a single-character element symbol.
pub open spec fn single_element_number(c: char) -> u32 {
    if c == 'c' {
        6
    } else if c == 'n' {
        7
    } else if c == 'o' {
        8
    } else {
        9
    }
}

/// The ring-closure digits of the grammar.
pub open spec fn is_ring_digit(c: char) -> bool {
    c == '1' || c == '2' || c == '3' || c == '4' || c == '5' || c == '6' || c == '7' || c == '8'
        || c == '9'
}

/// Emitting an atom: append it, bond the current atom to it if one exists,
/// and make it the current atom.
pub open spec fn emit_atom(st: ParseState, number: u32) -> ParseState {
    let idx = st.atoms.len() as usize;
    ParseState {
        atoms: st.atoms.push(number),
        bonds: match st.last {
            Some(l) => st.bonds.push((l, idx)),
            None => st.bonds,
        },
        last: Some(idx),
        ..st
    }
}

/// A ring-closure digit, with a current atom established: the first
/// occurrence of a label records the current atom as its opener; the second
/// creates a bond from the opener to the current atom and clears the label,
/// so a later reuse of the same digit opens a fresh ring.
pub open spec fn ring_step(st: ParseState, c: char) -> ParseState {
    if st.rings.contains_key(c) {
        ParseState { bonds: st.bonds.push((st.rings[c], st.last->0)), rings: st.rings.remove(c), ..st }
    } else {
        ParseState { rings: st.rings.insert(c, st.last->0), ..st }
    }
}

/// A branch opening, with a current atom established: remember it; it stays
/// the current atom.
pub open spec fn push_branch(st: ParseState) -> ParseState {
    ParseState { stack: st.stack.push(st.last->0), ..st }
}

/// A branch closing, with a branch open: the atom recorded at the opening
/// becomes the current atom again.
pub open spec fn pop_branch(st: ParseState) -> ParseState {
    ParseState { last: Some(st.stack.last()), stack: st.stack.drop_last(), ..st }
}

/// One left-to-right pass from position `i` in state `st`: one decision per
/// consumed token. A lowercase `c` directly followed by `l` is one chlorine
/// token (greedy longest match); any character outside the grammar is
/// consumed with no effect.
pub open spec fn parse_from(s: Seq<char>, i: nat, st: ParseState) -> Result<ParseState, ParseError>
    decreases s.len() - i,
{
    if i >= s.len() {
        Ok(st)
    } else {
        let c = s[i as int];
        if c == 'c' && i + 1 < s.len() && s[i as int + 1] == 'l' {
            parse_from(s, i + 2, emit_atom(st, 17))
        } else if is_single_element(c) {
            parse_from(s, i + 1, emit_atom(st, single_element_number(c)))
        } else if is_ring_digit(c) {
            if st.last is None {
                Err(ParseError::RingWithoutAtom)
            } else {
                parse_from(s, i + 1, ring_step(st, c))
            }
        } else if c == '(' {
            if st.last is None {
                Err(ParseError::BranchWithoutAtom)
            } else {
                parse_from(s, i + 1, push_branch(st))
            }
        } else if c == ')' {
            if st.stack.len() == 0 {
                Err(ParseError::UnmatchedBranchClose)
            } else {
                parse_from(s, i + 1, pop_branch(st))
            }
        } else {
            parse_from(s, i + 1, st)
        }
    }
}

/// The whole pass over an input: the molecular graph that parsing builds, or
/// the failure that aborts it.
pub open spec fn spec_parse(s: Seq<char>) -> Result<ParseState, ParseError> {
    parse_from(s, 0, initial_state())
}

} // verus!
