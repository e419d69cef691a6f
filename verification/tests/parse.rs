use smiles::model::ParseError;
use smiles::types::{Atom, Bond, Mol};
use smiles::SmilesParser;

fn bond(atom_start: usize, atom_end: usize) -> Bond {
    Bond {
        atom_start,
        atom_end,
    }
}

fn parse(input: &str) -> Mol {
    let parser = SmilesParser {};
    parser.parse(input).unwrap()
}

#[test]
fn parse_ccc() {
    let parser = SmilesParser {};
    let mol = parser.parse("ccc").unwrap();

    assert_eq!(3, mol.num_atoms());
    assert_eq!(2, mol.num_bonds());
    assert_eq!(Some(&Atom { number: 6 }), mol.atom_with_idx(0));
}

#[test]
fn parse_cyclopentane() {
    let parser = SmilesParser {};
    let mol = parser.parse("c1cccc1").unwrap();

    assert_eq!(5, mol.num_atoms());
    assert_eq!(5, mol.num_bonds());
    assert_eq!(Some(&Atom { number: 6 }), mol.atom_with_idx(0));
    assert_eq!(Some(&Atom { number: 6 }), mol.atom_with_idx(1));
    assert_eq!(Some(&Atom { number: 6 }), mol.atom_with_idx(2));
    assert_eq!(Some(&Atom { number: 6 }), mol.atom_with_idx(3));
    assert_eq!(Some(&Atom { number: 6 }), mol.atom_with_idx(4));

    assert_eq!(Some(&bond(0, 1)), mol.bond_with_idx(0));
    assert_eq!(Some(&bond(1, 2)), mol.bond_with_idx(1));
    assert_eq!(Some(&bond(2, 3)), mol.bond_with_idx(2));
    assert_eq!(Some(&bond(3, 4)), mol.bond_with_idx(3));
    assert_eq!(Some(&bond(0, 4)), mol.bond_with_idx(4));
}

#[test]
fn parse_bicyclohexyl() {
    let parser = SmilesParser {};
    let mol = parser.parse("c1ccccc1c2ccccc2").unwrap();

    assert_eq!(12, mol.num_atoms());
    assert_eq!(13, mol.num_bonds());
    assert_eq!(Some(&Atom { number: 6 }), mol.atom_with_idx(0));
    assert_eq!(Some(&Atom { number: 6 }), mol.atom_with_idx(1));
    assert_eq!(Some(&Atom { number: 6 }), mol.atom_with_idx(2));
    assert_eq!(Some(&Atom { number: 6 }), mol.atom_with_idx(3));
    assert_eq!(Some(&Atom { number: 6 }), mol.atom_with_idx(4));

    assert_eq!(Some(&bond(0, 1)), mol.bond_with_idx(0));
    assert_eq!(Some(&bond(1, 2)), mol.bond_with_idx(1));
    assert_eq!(Some(&bond(2, 3)), mol.bond_with_idx(2));
    assert_eq!(Some(&bond(3, 4)), mol.bond_with_idx(3));
    assert_eq!(Some(&bond(4, 5)), mol.bond_with_idx(4));
    assert_eq!(Some(&bond(0, 5)), mol.bond_with_idx(5));
    assert_eq!(Some(&bond(5, 6)), mol.bond_with_idx(6));
    assert_eq!(Some(&bond(6, 7)), mol.bond_with_idx(7));
    assert_eq!(Some(&bond(7, 8)), mol.bond_with_idx(8));
    assert_eq!(Some(&bond(8, 9)), mol.bond_with_idx(9));
    assert_eq!(Some(&bond(9, 10)), mol.bond_with_idx(10));
    assert_eq!(Some(&bond(10, 11)), mol.bond_with_idx(11));
    assert_eq!(Some(&bond(6, 11)), mol.bond_with_idx(12));
}

#[test]
fn parse_fluoroform() {
    let parser = SmilesParser {};
    let mol = parser.parse("fc(f)f").unwrap();

    assert_eq!(4, mol.num_atoms());
    assert_eq!(3, mol.num_bonds());
    assert_eq!(Some(&Atom { number: 9 }), mol.atom_with_idx(0));
    assert_eq!(Some(&Atom { number: 6 }), mol.atom_with_idx(1));
    assert_eq!(Some(&Atom { number: 9 }), mol.atom_with_idx(2));
    assert_eq!(Some(&Atom { number: 9 }), mol.atom_with_idx(3));

    assert_eq!(Some(&bond(0, 1)), mol.bond_with_idx(0));
    assert_eq!(Some(&bond(1, 2)), mol.bond_with_idx(1));
    assert_eq!(Some(&bond(1, 3)), mol.bond_with_idx(2));
}

#[test]
fn parse_molecule_with_inner_cl() {
    let parser = SmilesParser {};
    // probably an invalid molecule, doesn't matter as we're just testing the parsing
    let mol = parser.parse("ccclc").unwrap();

    assert_eq!(4, mol.num_atoms());
    assert_eq!(3, mol.num_bonds());
    assert_eq!(Some(&Atom { number: 6 }), mol.atom_with_idx(0));
    assert_eq!(Some(&Atom { number: 6 }), mol.atom_with_idx(1));
    assert_eq!(Some(&Atom { number: 17 }), mol.atom_with_idx(2));
    assert_eq!(Some(&Atom { number: 6 }), mol.atom_with_idx(3));

    assert_eq!(Some(&bond(0, 1)), mol.bond_with_idx(0));
    assert_eq!(Some(&bond(1, 2)), mol.bond_with_idx(1));
    assert_eq!(Some(&bond(2, 3)), mol.bond_with_idx(2));
}

#[test]
fn parse_molecule_with_last_cl() {
    let parser = SmilesParser {};
    // probably an invalid molecule, doesn't matter as we're just testing the parsing
    let mol = parser.parse("ccccl").unwrap();

    assert_eq!(4, mol.num_atoms());
    assert_eq!(3, mol.num_bonds());
    assert_eq!(Some(&Atom { number: 6 }), mol.atom_with_idx(0));
    assert_eq!(Some(&Atom { number: 6 }), mol.atom_with_idx(1));
    assert_eq!(Some(&Atom { number: 6 }), mol.atom_with_idx(2));
    assert_eq!(Some(&Atom { number: 17 }), mol.atom_with_idx(3));

    assert_eq!(Some(&bond(0, 1)), mol.bond_with_idx(0));
    assert_eq!(Some(&bond(1, 2)), mol.bond_with_idx(1));
    assert_eq!(Some(&bond(2, 3)), mol.bond_with_idx(2));
}

#[test]
fn parse_empty_input() {
    let mol = parse("");
    assert_eq!(0, mol.num_atoms());
    assert_eq!(0, mol.num_bonds());
    assert_eq!(None, mol.atom_with_idx(0));
    assert_eq!(None, mol.bond_with_idx(0));
}

#[test]
fn parse_single_chlorine() {
    let mol = parse("cl");
    assert_eq!(1, mol.num_atoms());
    assert_eq!(0, mol.num_bonds());
    assert_eq!(Some(&Atom { number: 17 }), mol.atom_with_idx(0));
}

#[test]
fn parse_chlorine_then_carbon() {
    let mol = parse("clc");
    assert_eq!(2, mol.num_atoms());
    assert_eq!(1, mol.num_bonds());
    assert_eq!(Some(&Atom { number: 17 }), mol.atom_with_idx(0));
    assert_eq!(Some(&Atom { number: 6 }), mol.atom_with_idx(1));
    assert_eq!(Some(&bond(0, 1)), mol.bond_with_idx(0));
}

#[test]
fn parse_all_single_elements() {
    let mol = parse("cnof");
    assert_eq!(4, mol.num_atoms());
    assert_eq!(3, mol.num_bonds());
    assert_eq!(Some(&Atom { number: 6 }), mol.atom_with_idx(0));
    assert_eq!(Some(&Atom { number: 7 }), mol.atom_with_idx(1));
    assert_eq!(Some(&Atom { number: 8 }), mol.atom_with_idx(2));
    assert_eq!(Some(&Atom { number: 9 }), mol.atom_with_idx(3));
    assert_eq!(Some(&bond(0, 1)), mol.bond_with_idx(0));
    assert_eq!(Some(&bond(1, 2)), mol.bond_with_idx(1));
    assert_eq!(Some(&bond(2, 3)), mol.bond_with_idx(2));
}

#[test]
fn parse_skips_unknown_characters() {
    let mol = parse("cxc");
    assert_eq!(2, mol.num_atoms());
    assert_eq!(1, mol.num_bonds());
    assert_eq!(Some(&bond(0, 1)), mol.bond_with_idx(0));
}

#[test]
fn parse_skips_lone_l() {
    // an `l` not preceded by `c` is not part of any token
    let mol = parse("lc");
    assert_eq!(1, mol.num_atoms());
    assert_eq!(Some(&Atom { number: 6 }), mol.atom_with_idx(0));
}

#[test]
fn parse_ring_digit_reused_after_closure() {
    let mol = parse("c1cc1c1cc1");
    assert_eq!(6, mol.num_atoms());
    assert_eq!(7, mol.num_bonds());
    assert_eq!(Some(&bond(0, 1)), mol.bond_with_idx(0));
    assert_eq!(Some(&bond(1, 2)), mol.bond_with_idx(1));
    assert_eq!(Some(&bond(0, 2)), mol.bond_with_idx(2));
    assert_eq!(Some(&bond(2, 3)), mol.bond_with_idx(3));
    assert_eq!(Some(&bond(3, 4)), mol.bond_with_idx(4));
    assert_eq!(Some(&bond(4, 5)), mol.bond_with_idx(5));
    assert_eq!(Some(&bond(3, 5)), mol.bond_with_idx(6));
}

#[test]
fn parse_nested_branches() {
    let mol = parse("c(c(c)c)c");
    assert_eq!(5, mol.num_atoms());
    assert_eq!(4, mol.num_bonds());
    assert_eq!(Some(&bond(0, 1)), mol.bond_with_idx(0));
    assert_eq!(Some(&bond(1, 2)), mol.bond_with_idx(1));
    assert_eq!(Some(&bond(1, 3)), mol.bond_with_idx(2));
    assert_eq!(Some(&bond(0, 4)), mol.bond_with_idx(3));
}

#[test]
fn parse_ring_digit_before_any_atom() {
    let parser = SmilesParser {};
    assert_eq!(Err(ParseError::RingWithoutAtom), parser.parse("1c").map(|_| ()));
}

#[test]
fn parse_branch_open_before_any_atom() {
    let parser = SmilesParser {};
    assert_eq!(Err(ParseError::BranchWithoutAtom), parser.parse("(c)").map(|_| ()));
}

#[test]
fn parse_branch_close_without_open() {
    let parser = SmilesParser {};
    assert_eq!(Err(ParseError::UnmatchedBranchClose), parser.parse("c)c").map(|_| ()));
}

#[test]
fn reparse_gives_identical_structure() {
    // re-parsing the same input yields two distinct graphs with identical
    // atom-number sequences and identical bond endpoint pairs
    let first = parse("fc(f)f");
    let second = parse("fc(f)f");
    assert_eq!(first.num_atoms(), second.num_atoms());
    assert_eq!(first.num_bonds(), second.num_bonds());
    for idx in 0..first.num_atoms() {
        assert_eq!(first.atom_with_idx(idx), second.atom_with_idx(idx));
    }
    for idx in 0..first.num_bonds() {
        assert_eq!(first.bond_with_idx(idx), second.bond_with_idx(idx));
    }
}
