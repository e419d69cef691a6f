use vstd::prelude::*;

pub mod laws;
pub mod model;
pub mod scanner;
pub mod types;

use crate::model::{
    emit_atom, initial_state, is_ring_digit, is_single_element, parse_from, pop_branch,
    push_branch, ring_step, single_element_number, spec_parse, ParseError, ParseState,
};
use crate::scanner::Scanner;
use crate::types::{mol_atoms, mol_bonds, Mol};

verus! {

/// An element symbol as the scanner hands it over: one of the one- or
/// two-character symbols of the grammar.
pub open spec fn is_element_symbol(s: Seq<char>) -> bool {
    (s.len() == 1 && is_single_element(s[0])) || (s.len() == 2 && s[0] == 'c' && s[1] == 'l')
}

/// The atomic number of an element symbol.
pub open spec fn symbol_number(s: Seq<char>) -> u32 {
    if s.len() == 2 {
        17
    } else {
        single_element_number(s[0])
    }
}

/// The atomic number of the element with the given symbol.
fn atom_number(s: &str) -> (n: u32)
    requires
        is_element_symbol(s@),
    ensures
        n == symbol_number(s@),
{
    if s.unicode_len() == 2 {
        17
    } else {
        let c = s.get_char(0);
        if c == 'c' {
            6
        } else if c == 'n' {
            7
        } else if c == 'o' {
            8
        } else {
            9
        }
    }
}

/// Appends an atom with the given atomic number; when a current atom exists,
/// also appends a bond from it to the new atom. Returns the new atom's index.
fn add_to_graph(mol: &mut Mol, atom_number: u32, last_node_index: Option<usize>) -> (idx: usize)
    requires
        last_node_index matches Some(l) ==> l < mol_atoms(*old(mol)).len(),
    ensures
        mol_atoms(*final(mol)) == mol_atoms(*old(mol)).push(atom_number),
        mol_bonds(*final(mol)) == match last_node_index {
            Some(l) => mol_bonds(*old(mol)).push((l, (mol_atoms(*old(mol)).len() as usize))),
            None => mol_bonds(*old(mol)),
        },
        idx == mol_atoms(*old(mol)).len(),
{
    let idx = mol.add_atom(atom_number);
    if let Some(last) = last_node_index {
        mol.add_bond(last, idx);
    }
    idx
}

/// The slot of a ring digit in the pending ring-closure table.
spec fn digit_index(c: char) -> int {
    if c == '1' {
        0
    } else if c == '2' {
        1
    } else if c == '3' {
        2
    } else if c == '4' {
        3
    } else if c == '5' {
        4
    } else if c == '6' {
        5
    } else if c == '7' {
        6
    } else if c == '8' {
        7
    } else {
        8
    }
}

fn digit_slot(c: char) -> (slot: usize)
    requires
        is_ring_digit(c),
    ensures
        slot == digit_index(c),
{
    if c == '1' {
        0
    } else if c == '2' {
        1
    } else if c == '3' {
        2
    } else if c == '4' {
        3
    } else if c == '5' {
        4
    } else if c == '6' {
        5
    } else if c == '7' {
        6
    } else if c == '8' {
        7
    } else {
        8
    }
}

/// The pending ring-closure table that a slot vector represents: slot `k`
/// holds the opener atom recorded for digit `k + 1`, if any.
spec fn rings_view(table: Seq<Option<usize>>) -> Map<char, usize> {
    Map::new(
        |c: char| is_ring_digit(c) && table[digit_index(c)] is Some,
        |c: char| table[digit_index(c)]->0,
    )
}

/// The abstract parser state that the concrete loop variables represent.
spec fn loop_state(mol: Mol, last: Option<usize>, table: Seq<Option<usize>>, stack: Seq<usize>) -> ParseState {
    ParseState {
        atoms: mol_atoms(mol),
        bonds: mol_bonds(mol),
        last: last,
        rings: rings_view(table),
        stack: stack,
    }
}

pub struct SmilesParser {}

impl SmilesParser {
    /// Parses the given notation into a molecular graph in a single
    /// left-to-right pass, or reports the malformed-input condition that
    /// aborted the pass.
    pub fn parse(&self, smiles: &str) -> (r: Result<Mol, ParseError>)
        ensures
            spec_parse(smiles@) matches Ok(st) ==> r matches Ok(m) && mol_atoms(m) == st.atoms
                && mol_bonds(m) == st.bonds,
            spec_parse(smiles@) matches Err(e) ==> r == Err::<Mol, ParseError>(e),
    {
        let ghost s: Seq<char> = smiles@;

        let mut scanner = Scanner::new(smiles);

        let mut mol = Mol::new();

        let mut last_node_index: Option<usize> = None;

        let mut rings_table: Vec<Option<usize>> = Vec::new();
        let mut k: usize = 0;
        while k < 9
            invariant
                k <= 9,
                rings_table@.len() == k,
                forall|j: int| 0 <= j < k ==> rings_table@[j] is None,
            decreases 9 - k,
        {
            rings_table.push(None);
            k = k + 1;
        }

        let mut branches_stack: Vec<usize> = Vec::new();

        proof {
            assert(rings_view(rings_table@) =~= Map::<char, usize>::empty());
            assert(loop_state(mol, last_node_index, rings_table@, branches_stack@)
                =~= initial_state());
        }

        while !scanner.is_done()
            invariant
                s == smiles@,
                scanner.chars() == s,
                0 <= scanner.pos() <= s.len(),
                rings_table@.len() == 9,
                last_node_index matches Some(l) ==> l < mol_atoms(mol).len(),
                forall|j: int| 0 <= j < 9 ==> (#[trigger] rings_table@[j] matches Some(v)
                    ==> v < mol_atoms(mol).len()),
                forall|j: int| 0 <= j < branches_stack@.len()
                    ==> #[trigger] branches_stack@[j] < mol_atoms(mol).len(),
                parse_from(s, scanner.pos() as nat,
                    loop_state(mol, last_node_index, rings_table@, branches_stack@))
                    == spec_parse(s),
            decreases s.len() - scanner.pos(),
        {
            let ghost i: nat = scanner.pos() as nat;
            let ghost pre: ParseState =
                loop_state(mol, last_node_index, rings_table@, branches_stack@);

            let c_opt = scanner.pop();

            if let Some(c) = c_opt {
                match c {
                    'c' | 'n' | 'o' | 'f' => {
                        let number: u32 = if c == 'c' {
                            let followed_by_l = match scanner.peek() {
                                Some(next) => *next == 'l',
                                None => false,
                            };
                            if followed_by_l {
                                let _ = scanner.pop();
                                proof {
                                    reveal_strlit("cl");
                                }
                                atom_number("cl")
                            } else {
                                proof {
                                    reveal_strlit("c");
                                }
                                atom_number("c")
                            }
                        } else if c == 'n' {
                            proof {
                                reveal_strlit("n");
                            }
                            atom_number("n")
                        } else if c == 'o' {
                            proof {
                                reveal_strlit("o");
                            }
                            atom_number("o")
                        } else {
                            proof {
                                reveal_strlit("f");
                            }
                            atom_number("f")
                        };
                        let node_index = add_to_graph(&mut mol, number, last_node_index);
                        last_node_index = Some(node_index);
                        proof {
                            assert(loop_state(mol, last_node_index, rings_table@, branches_stack@)
                                =~= emit_atom(pre, number));
                            if scanner.pos() == i + 2 {
                                assert(number == 17);
                                assert(parse_from(s, i, pre)
                                    == parse_from(s, i + 2, emit_atom(pre, 17)));
                            } else {
                                assert(number == single_element_number(c));
                                assert(parse_from(s, i, pre)
                                    == parse_from(s, i + 1, emit_atom(pre, single_element_number(c))));
                            }
                        }
                    }
                    '1' | '2' | '3' | '4' | '5' | '6' | '7' | '8' | '9' => {
                        match last_node_index {
                            None => {
                                proof {
                                    assert(parse_from(s, i, pre)
                                        == Err::<ParseState, ParseError>(ParseError::RingWithoutAtom));
                                }
                                return Err(ParseError::RingWithoutAtom);
                            }
                            Some(last) => {
                                let slot = digit_slot(c);
                                match rings_table[slot] {
                                    None => {
                                        // a ring starts
                                        rings_table[slot] = Some(last);
                                        proof {
                                            assert(rings_view(rings_table@)
                                                =~= pre.rings.insert(c, last));
                                            assert(loop_state(mol, last_node_index, rings_table@,
                                                branches_stack@) =~= ring_step(pre, c));
                                            assert(parse_from(s, i, pre)
                                                == parse_from(s, i + 1, ring_step(pre, c)));
                                        }
                                    }
                                    Some(ring_start) => {
                                        // ring ends
                                        mol.add_bond(ring_start, last);
                                        rings_table[slot] = None;
                                        proof {
                                            assert(rings_view(rings_table@)
                                                =~= pre.rings.remove(c));
                                            assert(loop_state(mol, last_node_index, rings_table@,
                                                branches_stack@) =~= ring_step(pre, c));
                                            assert(parse_from(s, i, pre)
                                                == parse_from(s, i + 1, ring_step(pre, c)));
                                        }
                                    }
                                }
                            }
                        }
                    }
                    '(' => {
                        match last_node_index {
                            None => {
                                proof {
                                    assert(parse_from(s, i, pre)
                                        == Err::<ParseState, ParseError>(ParseError::BranchWithoutAtom));
                                }
                                return Err(ParseError::BranchWithoutAtom);
                            }
                            Some(last) => {
                                branches_stack.push(last);
                                proof {
                                    assert(loop_state(mol, last_node_index, rings_table@,
                                        branches_stack@) =~= push_branch(pre));
                                    assert(parse_from(s, i, pre)
                                        == parse_from(s, i + 1, push_branch(pre)));
                                }
                            }
                        }
                    }
                    ')' => {
                        match branches_stack.pop() {
                            None => {
                                proof {
                                    assert(parse_from(s, i, pre)
                                        == Err::<ParseState, ParseError>(ParseError::UnmatchedBranchClose));
                                }
                                return Err(ParseError::UnmatchedBranchClose);
                            }
                            Some(last_index_before_branch) => {
                                // replace current last node index (in branch) with index before branch
                                last_node_index = Some(last_index_before_branch);
                                proof {
                                    assert(branches_stack@ =~= pre.stack.drop_last());
                                    assert(loop_state(mol, last_node_index, rings_table@,
                                        branches_stack@) =~= pop_branch(pre));
                                    assert(parse_from(s, i, pre)
                                        == parse_from(s, i + 1, pop_branch(pre)));
                                }
                            }
                        }
                    }
                    _ => {
                        proof {
                            assert(loop_state(mol, last_node_index, rings_table@, branches_stack@)
                                == pre);
                            assert(parse_from(s, i, pre) == parse_from(s, i + 1, pre));
                        }
                    }
                }
            }
        }

        Ok(mol)
    }
}

/// Reports whether the whole input was consumed as a non-empty run of `*`
/// units: true exactly when the input has at least one character and every
/// character is `*`.
pub fn string(input: &str) -> (r: bool)
    ensures
        r == (input@.len() > 0 && (forall|i: int| 0 <= i < input@.len() ==> input@[i] == '*')),
{
    let mut scanner = Scanner::new(input);

    loop
        invariant
            scanner.chars() == input@,
            0 <= scanner.pos() <= input@.len(),
            forall|j: int| 0 <= j < scanner.pos() ==> scanner.chars()[j] == '*',
        ensures
            scanner.chars() == input@,
            0 <= scanner.pos() <= input@.len(),
            forall|j: int| 0 <= j < scanner.pos() ==> scanner.chars()[j] == '*',
            scanner.pos() == input@.len() || scanner.chars()[scanner.pos()] != '*',
        decreases input@.len() - scanner.pos(),
    {
        if !unit(&mut scanner) {
            break;
        }
    }

    scanner.cursor() > 0 && scanner.is_done()
}

/// One unit of the wildcard pattern: a single `*`, consumed when present.
fn unit(scanner: &mut Scanner) -> (r: bool)
    ensures
        final(scanner).chars() == old(scanner).chars(),
        r == (old(scanner).pos() < old(scanner).chars().len()
            && old(scanner).chars()[old(scanner).pos()] == '*'),
        final(scanner).pos() == if r {
            old(scanner).pos() + 1
        } else {
            old(scanner).pos()
        },
{
    scanner.take(&'*')
}

} // verus!
