use vstd::prelude::*;

use crate::model::{
    emit_atom, initial_state, is_ring_digit, is_single_element, parse_from, pop_branch,
    push_branch, ring_step, single_element_number, spec_parse, ParseState,
};
use crate::types::{mol_atoms, mol_bonds, Mol};

verus! {

/// The greedy reading of `s` as a run of element tokens and nothing else:
/// the atomic numbers of the tokens in order, or `None` when any character
/// is not part of an element token.
pub open spec fn element_tokens(s: Seq<char>) -> Option<Seq<u32>>
    decreases s.len(),
{
    if s.len() == 0 {
        Some(Seq::<u32>::empty())
    } else if s[0] == 'c' && s.len() >= 2 && s[1] == 'l' {
        match element_tokens(s.skip(2)) {
            Some(rest) => Some(seq![17u32] + rest),
            None => None,
        }
    } else if is_single_element(s[0]) {
        match element_tokens(s.skip(1)) {
            Some(rest) => Some(seq![single_element_number(s[0])] + rest),
            None => None,
        }
    } else {
        None
    }
}

/// The state after emitting the atoms `nums`, in order, starting from `st`.
pub open spec fn chain_result(st: ParseState, nums: Seq<u32>) -> ParseState
    decreases nums.len(),
{
    if nums.len() == 0 {
        st
    } else {
        chain_result(emit_atom(st, nums[0]), nums.drop_first())
    }
}

/// The bonds that emitting `n` chained atoms creates when the new atoms
/// start at index `base` and the current atom before the run is `last`.
pub open spec fn chain_bonds(last: Option<usize>, base: nat, n: nat) -> Seq<(usize, usize)>
    decreases n,
{
    if n == 0 {
        Seq::<(usize, usize)>::empty()
    } else {
        let first: Seq<(usize, usize)> = match last {
            Some(l) => seq![(l, (base as usize))],
            None => Seq::<(usize, usize)>::empty(),
        };
        first + chain_bonds(Some((base as usize)), base + 1, (n - 1) as nat)
    }
}

/// How emitting a run of atoms transforms the whole state: the atoms are
/// appended, the bonds grow by the chain's bonds, the ring table and branch
/// stack are untouched, and the last emitted atom becomes current.
proof fn lemma_chain_result_fields(st: ParseState, nums: Seq<u32>)
    ensures
        chain_result(st, nums).atoms == st.atoms + nums,
        chain_result(st, nums).bonds == st.bonds + chain_bonds(
            st.last,
            st.atoms.len(),
            nums.len(),
        ),
        chain_result(st, nums).rings == st.rings,
        chain_result(st, nums).stack == st.stack,
        chain_result(st, nums).last == if nums.len() > 0 {
            Some(((st.atoms.len() + nums.len() - 1) as usize))
        } else {
            st.last
        },
    decreases nums.len(),
{
    if nums.len() == 0 {
        assert(st.atoms + nums =~= st.atoms);
        assert(st.bonds + chain_bonds(st.last, st.atoms.len(), 0) =~= st.bonds);
    } else {
        let st1 = emit_atom(st, nums[0]);
        let rest = nums.drop_first();
        lemma_chain_result_fields(st1, rest);
        assert(st1.atoms + rest =~= st.atoms + nums);
        let first: Seq<(usize, usize)> = match st.last {
            Some(l) => seq![(l, (st.atoms.len() as usize))],
            None => Seq::<(usize, usize)>::empty(),
        };
        assert(st1.bonds =~= st.bonds + first);
        assert(
            (st.bonds + first) + chain_bonds(Some((st.atoms.len() as usize)), st.atoms.len() + 1, rest.len())
            =~= st.bonds + (first + chain_bonds(Some((st.atoms.len() as usize)), st.atoms.len() + 1, rest.len()))
        );
    }
}

/// `parse_from` runs a whole element-token segment as one chained emission:
/// from position `i` with the segment `s[i .. j]` consisting of element
/// tokens alone, parsing continues at `j` in the chained state. The segment
/// may not be followed by an `l`, so that no token straddles its end.
proof fn lemma_chain_segment(s: Seq<char>, i: nat, j: nat, st: ParseState, nums: Seq<u32>)
    requires
        i <= j <= s.len(),
        element_tokens(s.subrange(i as int, j as int)) == Some(nums),
        j == s.len() || s[j as int] != 'l',
    ensures
        parse_from(s, i, st) == parse_from(s, j, chain_result(st, nums)),
    decreases j - i,
{
    let seg = s.subrange(i as int, j as int);
    if i == j {
        assert(seg.len() == 0);
        assert(nums == Seq::<u32>::empty());
    } else {
        assert(seg.len() > 0);
        assert(seg[0] == s[i as int]);
        if seg[0] == 'c' && seg.len() >= 2 && seg[1] == 'l' {
            assert(s[i as int + 1] == 'l');
            let st1 = emit_atom(st, 17);
            let rest = element_tokens(seg.skip(2))->0;
            assert(nums == seq![17u32] + rest);
            assert(nums[0] == 17);
            assert(nums.drop_first() =~= rest);
            assert(seg.skip(2) =~= s.subrange(i as int + 2, j as int));
            lemma_chain_segment(s, i + 2, j, st1, rest);
            assert(parse_from(s, i, st) == parse_from(s, i + 2, st1));
            assert(chain_result(st, nums) == chain_result(st1, rest));
        } else {
            assert(is_single_element(seg[0]));
            let num = single_element_number(seg[0]);
            let st1 = emit_atom(st, num);
            let rest = element_tokens(seg.skip(1))->0;
            assert(nums == seq![num] + rest);
            assert(nums[0] == num);
            assert(nums.drop_first() =~= rest);
            assert(seg.skip(1) =~= s.subrange(i as int + 1, j as int));
            // the parser reads a single-character token here: either the
            // segment continues and its next character is not `l`, or the
            // segment ends and the boundary condition rules an `l` out
            if s[i as int] == 'c' {
                if i + 1 < j {
                    assert(seg[1] == s[i as int + 1]);
                    assert(s[i as int + 1] != 'l');
                } else {
                    assert(i + 1 == j);
                }
            }
            lemma_chain_segment(s, i + 1, j, st1, rest);
            assert(parse_from(s, i, st) == parse_from(s, i + 1, st1));
            assert(chain_result(st, nums) == chain_result(st1, rest));
        }
    }
}

/// The shape of a chain that continues from atom `l`: bond `k` joins atom
/// `base + k - 1` to atom `base + k`, with the first bond anchored at `l`.
proof fn lemma_chain_bonds_some(l: usize, base: nat, n: nat)
    ensures
        chain_bonds(Some(l), base, n).len() == n,
        forall|k: int|
            0 <= k < n ==> #[trigger] chain_bonds(Some(l), base, n)[k] == (if k == 0 {
                (l, (base as usize))
            } else {
                (((base + k - 1) as usize), ((base + k) as usize))
            }),
    decreases n,
{
    if n > 0 {
        lemma_chain_bonds_some((base as usize), base + 1, (n - 1) as nat);
    }
}

/// The shape of a chain that starts with no current atom: a simple path
/// whose bond `k` joins atom `base + k` to atom `base + k + 1`.
proof fn lemma_chain_bonds_none(base: nat, n: nat)
    ensures
        chain_bonds(None, base, n).len() == if n == 0 {
            0int
        } else {
            n - 1
        },
        forall|k: int|
            0 <= k < n - 1 ==> #[trigger] chain_bonds(None, base, n)[k] == ((((base + k) as usize), ((
            base + k + 1) as usize))),
{
    if n > 0 {
        lemma_chain_bonds_some((base as usize), base + 1, (n - 1) as nat);
        assert(chain_bonds(None, base, n) =~= chain_bonds(
            Some((base as usize)),
            base + 1,
            (n - 1) as nat,
        ));
    }
}

/// For an input that is exactly a run of `n` element tokens — no rings, no
/// branches — parsing succeeds, the atoms are the tokens' atomic numbers in
/// input order, and the `n - 1` bonds form a simple path in input order.
pub proof fn lemma_element_chain(s: Seq<char>, nums: Seq<u32>)
    requires
        element_tokens(s) == Some(nums),
    ensures
        spec_parse(s) is Ok,
        spec_parse(s)->Ok_0.atoms == nums,
        spec_parse(s)->Ok_0.bonds.len() == if nums.len() == 0 {
            0int
        } else {
            nums.len() - 1
        },
        forall|k: int|
            0 <= k < nums.len() - 1 ==> #[trigger] spec_parse(s)->Ok_0.bonds[k] == (((k as usize), ((
            k + 1) as usize))),
{
    let init = initial_state();
    assert(s.subrange(0, s.len() as int) =~= s);
    lemma_chain_segment(s, 0, s.len(), init, nums);
    lemma_chain_result_fields(init, nums);
    lemma_chain_bonds_none(0, nums.len());
    let st = chain_result(init, nums);
    assert(st.atoms =~= nums);
    assert(st.bonds =~= chain_bonds(None, 0, nums.len()));
}

/// Ring closure: for an input `a · d · b · d · e` — element tokens `a`, a
/// ring digit `d` opened after the last atom of `a`, element tokens `b`,
/// the same digit again closing the ring, then element tokens `e` — parsing
/// succeeds with the atoms of `a`, `b`, `e` in order, and the bonds are all
/// the sequential path bonds plus exactly one further bond, created at the
/// closing digit, between the atom placed before the first `d` and the atom
/// placed before the second.
pub proof fn lemma_ring_closure(
    a: Seq<char>,
    b: Seq<char>,
    e: Seq<char>,
    d: char,
    na: Seq<u32>,
    nb: Seq<u32>,
    ne: Seq<u32>,
)
    requires
        element_tokens(a) == Some(na),
        element_tokens(b) == Some(nb),
        element_tokens(e) == Some(ne),
        na.len() > 0,
        is_ring_digit(d),
    ensures
        ({
            let s = a + seq![d] + b + seq![d] + e;
            let n = na.len() + nb.len();
            &&& spec_parse(s) is Ok
            &&& spec_parse(s)->Ok_0.atoms == na + nb + ne
            &&& spec_parse(s)->Ok_0.bonds.len() == n + ne.len()
            &&& (forall|k: int|
                0 <= k < n - 1 ==> #[trigger] spec_parse(s)->Ok_0.bonds[k] == (((k as usize), ((k
                + 1) as usize))))
            &&& spec_parse(s)->Ok_0.bonds[n - 1] == ((((na.len() - 1) as usize), ((n
                - 1) as usize)))
            &&& (forall|k: int|
                n <= k < n + ne.len() ==> #[trigger] spec_parse(s)->Ok_0.bonds[k] == ((((k
                - 1) as usize), (k as usize))))
        }),
{
    let s = a + seq![d] + b + seq![d] + e;
    let la = a.len() as int;
    let lb = b.len() as int;
    let n = na.len() + nb.len();
    assert(s.len() == la + 1 + lb + 1 + e.len());
    let init = initial_state();

    // the run of `a`
    assert(s.subrange(0, la) =~= a);
    assert(s[la] == d);
    lemma_chain_segment(s, 0, a.len(), init, na);
    let st1 = chain_result(init, na);
    lemma_chain_result_fields(init, na);
    assert(st1.last == Some(((na.len() - 1) as usize)));

    // the first `d` opens the ring
    assert(parse_from(s, a.len(), st1) == parse_from(s, a.len() + 1, ring_step(st1, d)));
    let st2 = ring_step(st1, d);
    assert(!st1.rings.contains_key(d));
    assert(st2.rings == st1.rings.insert(d, ((na.len() - 1) as usize)));
    assert(st2.atoms == st1.atoms && st2.bonds == st1.bonds && st2.last == st1.last);

    // the run of `b`
    assert(s.subrange(la + 1, la + 1 + lb) =~= b);
    assert(s[la + 1 + lb] == d);
    lemma_chain_segment(s, (la + 1) as nat, (la + 1 + lb) as nat, st2, nb);
    let st3 = chain_result(st2, nb);
    lemma_chain_result_fields(st2, nb);
    assert(st3.last == Some(((n - 1) as usize)));
    assert(st3.rings == st2.rings);

    // the second `d` closes the ring
    assert(parse_from(s, (la + 1 + lb) as nat, st3) == parse_from(
        s,
        (la + 1 + lb + 1) as nat,
        ring_step(st3, d),
    ));
    let st4 = ring_step(st3, d);
    assert(st3.rings.contains_key(d));
    assert(st3.rings[d] == ((na.len() - 1) as usize));
    assert(st4.bonds == st3.bonds.push(((((na.len() - 1) as usize), ((n - 1) as usize)))));
    assert(st4.atoms == st3.atoms);
    assert(st4.last == st3.last);

    // the run of `e` takes the chain on from the atom before the second `d`
    assert(s.subrange(la + 1 + lb + 1, s.len() as int) =~= e);
    lemma_chain_segment(s, (la + 1 + lb + 1) as nat, s.len(), st4, ne);
    let st5 = chain_result(st4, ne);
    lemma_chain_result_fields(st4, ne);

    // the pass ends here
    assert(parse_from(s, s.len(), st5) == Ok::<ParseState, crate::model::ParseError>(st5));
    assert(spec_parse(s) == Ok::<ParseState, crate::model::ParseError>(st5));

    // the atoms
    assert(st5.atoms =~= na + nb + ne);

    // the bonds: the sequential path of `a`, continued through `b`, then the
    // ring bond, then the sequential path of `e`
    lemma_chain_bonds_none(0, na.len());
    lemma_chain_bonds_some(((na.len() - 1) as usize), na.len(), nb.len());
    lemma_chain_bonds_some(((n - 1) as usize), n, ne.len());
    let part1 = chain_bonds(None, 0, na.len());
    let part2 = chain_bonds(Some(((na.len() - 1) as usize)), na.len(), nb.len());
    let part3 = chain_bonds(Some(((n - 1) as usize)), n, ne.len());
    assert(st3.bonds =~= part1 + part2);
    assert(st5.bonds =~= st4.bonds + part3);
    assert(st5.bonds.len() == n + ne.len());
    assert forall|k: int| 0 <= k < n - 1 implies #[trigger] st5.bonds[k] == (((k as usize), ((k
        + 1) as usize))) by {
        assert(st5.bonds[k] == st3.bonds[k]);
        if k < na.len() - 1 {
            assert(st3.bonds[k] == part1[k]);
        } else {
            assert(st3.bonds[k] == part2[k - (na.len() - 1)]);
        }
    }
    assert(st5.bonds[n - 1] == st4.bonds[n - 1]);
    assert forall|k: int| n <= k < n + ne.len() implies #[trigger] st5.bonds[k] == ((((k
        - 1) as usize), (k as usize))) by {
        assert(st5.bonds[k] == part3[k - n]);
    }
}

/// Branch restoration: an input `A ( B ) C` of three element tokens yields
/// atoms `A, B, C` with bonds `A–B` and `A–C`, not `B–C`: closing the
/// branch restores the pre-branch current atom, so `C` attaches to `A`.
pub proof fn lemma_branch_restoration(
    ta: Seq<char>,
    tb: Seq<char>,
    tc: Seq<char>,
    a: u32,
    b: u32,
    c: u32,
)
    requires
        element_tokens(ta) == Some(seq![a]),
        element_tokens(tb) == Some(seq![b]),
        element_tokens(tc) == Some(seq![c]),
    ensures
        ({
            let s = ta + seq!['('] + tb + seq![')'] + tc;
            &&& spec_parse(s) is Ok
            &&& spec_parse(s)->Ok_0.atoms == seq![a, b, c]
            &&& spec_parse(s)->Ok_0.bonds == seq![(0usize, 1usize), (0usize, 2usize)]
        }),
{
    let s = ta + seq!['('] + tb + seq![')'] + tc;
    let la = ta.len() as int;
    let lb = tb.len() as int;
    let lc = tc.len() as int;
    assert(s.len() == la + 1 + lb + 1 + lc);
    let init = initial_state();

    // the token `A`
    assert(s.subrange(0, la) =~= ta);
    assert(s[la] == '(');
    lemma_chain_segment(s, 0, ta.len(), init, seq![a]);
    let st1 = chain_result(init, seq![a]);
    lemma_chain_result_fields(init, seq![a]);
    assert(st1.atoms =~= seq![a]);
    assert(st1.bonds =~= chain_bonds(None, 0, 1));
    lemma_chain_bonds_none(0, 1);
    assert(st1.bonds =~= Seq::<(usize, usize)>::empty());
    assert(st1.last == Some(0usize));

    // `(` pushes the return point
    assert(parse_from(s, ta.len(), st1) == parse_from(s, ta.len() + 1, push_branch(st1)));
    let st2 = push_branch(st1);
    assert(st2.stack =~= seq![0usize]);

    // the token `B`
    assert(s.subrange(la + 1, la + 1 + lb) =~= tb);
    assert(s[la + 1 + lb] == ')');
    lemma_chain_segment(s, (la + 1) as nat, (la + 1 + lb) as nat, st2, seq![b]);
    let st3 = chain_result(st2, seq![b]);
    lemma_chain_result_fields(st2, seq![b]);
    assert(st3.atoms =~= seq![a, b]);
    lemma_chain_bonds_some(0usize, 1, 1);
    assert(st3.bonds =~= seq![(0usize, 1usize)]);
    assert(st3.last == Some(1usize));
    assert(st3.stack == st2.stack);

    // `)` restores the return point
    assert(st3.stack.len() == 1);
    assert(parse_from(s, (la + 1 + lb) as nat, st3) == parse_from(
        s,
        (la + 1 + lb + 1) as nat,
        pop_branch(st3),
    ));
    let st4 = pop_branch(st3);
    assert(st4.last == Some(0usize));

    // the token `C`
    assert(s.subrange(la + 1 + lb + 1, s.len() as int) =~= tc);
    lemma_chain_segment(s, (la + 1 + lb + 1) as nat, s.len(), st4, seq![c]);
    let st5 = chain_result(st4, seq![c]);
    lemma_chain_result_fields(st4, seq![c]);
    assert(st5.atoms =~= seq![a, b, c]);
    lemma_chain_bonds_some(0usize, 2, 1);
    assert(st5.bonds =~= seq![(0usize, 1usize), (0usize, 2usize)]);

    assert(parse_from(s, s.len(), st5) == Ok::<ParseState, crate::model::ParseError>(st5));
}

/// Digraph disambiguation, first half: a `c` immediately followed by `l` is
/// consumed as one chlorine token.
pub proof fn lemma_digraph_chlorine(s: Seq<char>, i: nat, st: ParseState)
    requires
        i < s.len(),
        s[i as int] == 'c',
        i + 1 < s.len(),
        s[i as int + 1] == 'l',
    ensures
        parse_from(s, i, st) == parse_from(s, i + 2, emit_atom(st, 17)),
{
}

/// Digraph disambiguation, second half: a `c` at the end of the input, or
/// followed by anything other than `l`, is one carbon token, and the
/// following character is processed independently, from the state the
/// carbon left behind.
pub proof fn lemma_single_carbon(s: Seq<char>, i: nat, st: ParseState)
    requires
        i < s.len(),
        s[i as int] == 'c',
        i + 1 == s.len() || s[i as int + 1] != 'l',
    ensures
        parse_from(s, i, st) == parse_from(s, i + 1, emit_atom(st, 6)),
{
}

/// Idempotence of structure, not of identity: two molecules parsed from the
/// same input carry identical atom-number sequences and identical bond
/// endpoint pairs, however distinct the graph objects are.
pub proof fn lemma_reparse_same_structure(s: Seq<char>, st: ParseState, m1: Mol, m2: Mol)
    requires
        spec_parse(s) == Ok::<ParseState, crate::model::ParseError>(st),
        mol_atoms(m1) == st.atoms,
        mol_bonds(m1) == st.bonds,
        mol_atoms(m2) == st.atoms,
        mol_bonds(m2) == st.bonds,
    ensures
        mol_atoms(m1) == mol_atoms(m2),
        mol_bonds(m1) == mol_bonds(m2),
{
}

} // verus!
