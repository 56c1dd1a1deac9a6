use std::collections::{BTreeMap, HashMap, HashSet, VecDeque};

use vstd::prelude::*;
use vstd::set_lib::{lemma_int_range, lemma_len_subset, set_int_range};

use crate::disassembler::{args_text, decoded, mnemonic, Instruction};
use crate::text::{hex, hex_padded, push_str};

verus! {

broadcast use {vstd::std_specs::hash::group_hash_axioms, vstd::std_specs::btree::group_btree_axioms};

/// The big-endian word of a buffer loaded at 0x200 that lies at address `a`.
pub open spec fn word_at(b: Seq<u8>, a: int) -> u16 {
    (b[a - 0x200] as int * 256 + b[a - 0x200 + 1] as int) as u16
}

/// Whether a whole word of the buffer lies at address `a`.
pub open spec fn in_program(b: Seq<u8>, a: int) -> bool {
    0x200 <= a && a + 2 <= 0x200 + b.len() && a + 2 <= 0x10000
}

/// Whether an instruction can be decoded at address `a`.
pub open spec fn decodes(b: Seq<u8>, a: int) -> bool {
    in_program(b, a) && decoded(word_at(b, a)) is Some
}

pub open spec fn insn_at(b: Seq<u8>, a: int) -> Instruction {
    decoded(word_at(b, a))->Some_0
}

/// Where a jump or a call goes.
pub open spec fn branch_target(i: Instruction) -> Option<u16> {
    match i {
        Instruction::Call(t) => Some(t.spec_value()),
        Instruction::Jump { target, .. } => Some(target.spec_value()),
        _ => None,
    }
}

/// Whether a set of addresses holds `first` and, with each decodable
/// address, the next one and the target of its jump or call.
pub open spec fn closed_flow(b: Seq<u8>, first: int, s: Set<int>) -> bool {
    &&& s.contains(first)
    &&& forall|a: int| #[trigger] s.contains(a) && decodes(b, a) ==> s.contains(a + 2)
    &&& forall|a: int|
        #[trigger] s.contains(a) && decodes(b, a) && branch_target(insn_at(b, a)) is Some
            ==> s.contains(branch_target(insn_at(b, a))->Some_0 as int)
}

/// Whether control can reach address `a` from `first`: `a` lies in every
/// set that [`closed_flow`] describes.
pub open spec fn reachable(b: Seq<u8>, first: int, a: int) -> bool {
    forall|s: Set<int>| #[trigger] closed_flow(b, first, s) ==> s.contains(a)
}

/// The addresses a listing holds: those that control reaches and that decode.
pub open spec fn listed(b: Seq<u8>, first: int, a: int) -> bool {
    reachable(b, first, a) && decodes(b, a)
}

/// The target of the jump that a program must start with.
pub open spec fn entry_of(b: Seq<u8>) -> Option<u16> {
    if b.len() >= 2 {
        match decoded((b[0] as int * 256 + b[1] as int) as u16) {
            Some(Instruction::Jump { target, adds_v0: false }) => Some(target.spec_value()),
            _ => None,
        }
    } else {
        None
    }
}

pub open spec fn loads_index(i: Instruction, v: u16) -> bool {
    match i {
        Instruction::LoadI(w) => w.spec_value() == v,
        _ => false,
    }
}

pub open spec fn draws_rows(i: Instruction, v: u16) -> bool {
    match i {
        Instruction::Draw(_, _, c) => c.spec_value() == v,
        _ => false,
    }
}

pub open spec fn calls(i: Instruction, t: u16) -> bool {
    match i {
        Instruction::Call(c) => c.spec_value() == t,
        _ => false,
    }
}

pub open spec fn sprites_of(m: Map<u16, (u16, Instruction)>) -> Set<u16> {
    Set::new(
        |v: u16|
            exists|a: u16|
                #[trigger] m.contains_key(a) && loads_index(m[a].1, v),
    )
}

pub open spec fn sizes_of(m: Map<u16, (u16, Instruction)>) -> Set<u16> {
    Set::new(
        |v: u16|
            exists|a: u16|
                #[trigger] m.contains_key(a) && draws_rows(m[a].1, v),
    )
}

pub open spec fn called(m: Map<u16, (u16, Instruction)>, t: u16) -> bool {
    exists|a: u16|
        #[trigger] m.contains_key(a) && calls(m[a].1, t)
}

pub open spec fn targeted(m: Map<u16, (u16, Instruction)>, t: u16) -> bool {
    exists|a: u16| #[trigger] m.contains_key(a) && branch_target(m[a].1) == Some(t)
}

pub open spec fn label_name(t: u16) -> Seq<char> {
    "label@"@ + hex_padded(t as nat, 0, false)
}

pub open spec fn function_name(t: u16) -> Seq<char> {
    "function@"@ + hex_padded(t as nat, 0, false) + "()"@
}

/// The labels of a listing: `main` for the entry, a function name for an
/// address that some call reaches, a plain label for other jump targets.
#[verifier::opaque]
pub open spec fn labels_ok(first: u16, m: Map<u16, (u16, Instruction)>, l: Map<u16, String>) -> bool {
    &&& forall|t: u16| #[trigger] l.contains_key(t) <==> (t == first || targeted(m, t))
    &&& l.contains_key(first) && l[first]@ == "main"@
    &&& forall|t: u16|
        #[trigger] l.contains_key(t) && t != first ==> l[t]@ == if called(m, t) {
            function_name(t)
        } else {
            label_name(t)
        }
}

/// Big-endian word at the start of `slice`, if it holds two bytes.
pub fn read_u16(slice: &[u8]) -> (r: Option<u16>)
    ensures
        slice@.len() >= 2 ==> r == Some((slice@[0] as int * 256 + slice@[1] as int) as u16),
        slice@.len() < 2 ==> r is None,
{
    if slice.len() >= 2 {
        let a = slice[0] as u16;
        let b = slice[1] as u16;
        Some(a * 256 + b)
    } else {
        None
    }
}

/// Reads the words of a buffer one by one, with the address of each.
pub struct U16Reader<'a>(pub &'a [u8], pub u16);

impl<'a> U16Reader<'a> {
    /// The next word and its address; the address moves on by two, modulo
    /// 2^16.
    pub fn next(&mut self) -> (r: Option<(u16, u16)>)
        ensures
            old(self).0@.len() >= 2 ==> r == Some(
                (old(self).1, (old(self).0@[0] as int * 256 + old(self).0@[1] as int) as u16),
            ) && final(self).0@ == old(self).0@.skip(2) && final(self).1 == (old(self).1 + 2)
                % 0x10000,
            old(self).0@.len() < 2 ==> r is None && *final(self) == *old(self),
    {
        if self.0.len() >= 2 {
            let a = self.0[0] as u16;
            let b = self.0[1] as u16;
            let v = (self.1, a * 256 + b);
            self.0 = vstd::slice::slice_subrange(self.0, 2, self.0.len());
            self.1 = self.1.wrapping_add(2);
            Some(v)
        } else {
            None
        }
    }

    /// A reader of the same buffer, loaded at 0x200, from address `addr` on.
    pub fn starting_from(self, addr: u16) -> (r: Self)
        requires
            0x200 <= addr,
            addr - 0x200 <= self.0@.len(),
        ensures
            r.0@ == self.0@.skip(addr - 0x200),
            r.1 == addr,
    {
        let n = self.0.len();
        U16Reader(vstd::slice::slice_subrange(self.0, addr as usize - 0x200, n), addr)
    }
}

/// The reachable part of a program, decoded, with its labels.
pub struct Program<'a> {
    pub labels: HashMap<u16, String>,
    pub sprites: HashSet<u16>,
    pub instructions: BTreeMap<u16, (u16, Instruction)>,
    pub draw_sizes: HashSet<u16>,
    pub buffer: &'a [u8],
}

/// Whether an address that can be decoded has been.
pub open spec fn settled(b: Seq<u8>, m: Map<u16, (u16, Instruction)>, x: int) -> bool {
    !decodes(b, x) || m.contains_key(x as u16)
}

#[verifier::opaque]
pub open spec fn entries_ok(b: Seq<u8>, m: Map<u16, (u16, Instruction)>) -> bool {
    forall|a: u16|
        #[trigger] m.contains_key(a) ==> decodes(b, a as int) && m[a] == (
            word_at(b, a as int),
            insn_at(b, a as int),
        )
}

#[verifier::opaque]
pub open spec fn sound(b: Seq<u8>, first: int, m: Map<u16, (u16, Instruction)>, q: Seq<u16>) -> bool {
    forall|s: Set<int>|
        #[trigger] closed_flow(b, first, s) ==> (forall|a: u16|
            m.contains_key(a) ==> s.contains(a as int)) && (forall|i: int|
            0 <= i < q.len() ==> s.contains(q[i] as int))
}

/// Every decoded address but `hole` has its successor settled, and every
/// branch target is settled or waits in `q`.
#[verifier::opaque]
pub open spec fn closed_but(
    b: Seq<u8>,
    first: int,
    m: Map<u16, (u16, Instruction)>,
    q: Seq<u16>,
    hole: Option<u16>,
) -> bool {
    &&& (settled(b, m, first) || q.contains(first as u16))
    &&& forall|a: u16| #[trigger] m.contains_key(a) && hole != Some(a) ==> settled(b, m, a + 2)
    &&& forall|a: u16|
        #[trigger] m.contains_key(a) && branch_target(m[a].1) is Some ==> settled(
            b,
            m,
            branch_target(m[a].1)->Some_0 as int,
        ) || q.contains(branch_target(m[a].1)->Some_0)
}

/// The name of a label for address `t`: a function's, or a plain one.
fn name_for(t: u16, call: bool) -> (r: String)
    ensures
        r@ == if call {
            function_name(t)
        } else {
            label_name(t)
        },
{
    let mut s = String::new();
    let h = hex(t, 0, false);
    if call {
        push_str(&mut s, "function@");
        push_str(&mut s, h.as_str());
        push_str(&mut s, "()");
    } else {
        push_str(&mut s, "label@");
        push_str(&mut s, h.as_str());
    }
    s
}


impl<'a> Program<'a> {
    /// The bookkeeping that holds between instructions while a program is
    /// decoded: `q` holds the addresses still to walk from.
    #[verifier::opaque]
    pub open spec fn tracks(&self, first: u16, q: Seq<u16>) -> bool {
        let m = self.instructions@;
        &&& entries_ok(self.buffer@, m)
        &&& sound(self.buffer@, first as int, m, q)
        &&& self.sprites@ == sprites_of(m)
        &&& self.draw_sizes@ == sizes_of(m)
        &&& labels_ok(first, m, self.labels@)
    }

    /// Records the instruction `i`, with opcode `op`, at address `a`, and
    /// queues the target of a jump or call.
    fn visit(&mut self, first: u16, a: u16, op: u16, i: Instruction, queue: &mut VecDeque<u16>)
        requires
            old(self).tracks(first, old(queue)@),
            decodes(old(self).buffer@, a as int),
            word_at(old(self).buffer@, a as int) == op,
            decoded(op) == Some(i),
            !old(self).instructions@.contains_key(a),
            forall|s: Set<int>| #[trigger]
                closed_flow(old(self).buffer@, first as int, s) ==> s.contains(a as int),
        ensures
            final(self).tracks(first, final(queue)@),
            final(self).buffer == old(self).buffer,
            final(self).instructions@ == old(self).instructions@.insert(a, (op, i)),
            branch_target(i) matches Some(t) ==> final(queue)@ == old(queue)@.push(t),
            branch_target(i) is None ==> final(queue)@ == old(queue)@,
    {
        proof {
            reveal(Program::tracks);
            reveal(entries_ok);
            reveal(sound);
            reveal(labels_ok);
        }
        let ghost b = self.buffer@;
        let ghost m0 = self.instructions@;
        let ghost q0 = queue@;
        let ghost l0 = self.labels@;
        match i {
            Instruction::Call(t) | Instruction::Jump { target: t, .. } => {
                let tv = t.value();
                let is_call = i.is_call();
                if is_call && tv != first {
                    let n = name_for(tv, true);
                    self.labels.insert(tv, n);
                } else if !self.labels.contains_key(&tv) {
                    let n = name_for(tv, false);
                    self.labels.insert(tv, n);
                }
                queue.push_back(tv);
            },
            Instruction::LoadI(w) => {
                self.sprites.insert(w.value());
            },
            Instruction::Draw(_, _, c) => {
                self.draw_sizes.insert(c.value());
            },
            _ => {},
        }
        self.instructions.insert(a, (op, i));
        proof {
            reveal(Program::tracks);
            reveal(entries_ok);
            reveal(sound);
            reveal(labels_ok);
            let m = self.instructions@;
            assert(m == m0.insert(a, (op, i)));
            assert forall|x: u16| #[trigger] m.contains_key(x) implies decodes(b, x as int) && m[x]
                == (word_at(b, x as int), insn_at(b, x as int)) by {
                if x != a {
                    assert(m0.contains_key(x));
                }
            }
            assert forall|s: Set<int>| #[trigger] closed_flow(b, first as int, s) implies (forall|
                x: u16,
            | m.contains_key(x) ==> s.contains(x as int)) && (forall|k: int|
                0 <= k < queue@.len() ==> s.contains(queue@[k] as int)) by {
                assert(s.contains(a as int));
                assert(forall|x: u16| m0.contains_key(x) ==> s.contains(x as int));
                assert(forall|k: int| 0 <= k < q0.len() ==> s.contains(q0[k] as int));
                if branch_target(i) is Some {
                    assert(insn_at(b, a as int) == i);
                    assert(s.contains(branch_target(i)->Some_0 as int));
                    assert forall|k: int| 0 <= k < queue@.len() implies s.contains(
                        queue@[k] as int,
                    ) by {
                        if k < q0.len() {
                            assert(queue@[k] == q0[k]);
                        }
                    }
                }
            }
            assert(self.sprites@ =~= sprites_of(m)) by {
                assert forall|v: u16| #[trigger] self.sprites@.contains(v) <==> sprites_of(
                    m,
                ).contains(v) by {
                    if sprites_of(m0).contains(v) {
                        let w = choose|x: u16| #[trigger] m0.contains_key(x) && loads_index(m0[x].1, v);
                        assert(m.contains_key(w) && loads_index(m[w].1, v));
                    }
                    if sprites_of(m).contains(v) {
                        let w = choose|x: u16| #[trigger] m.contains_key(x) && loads_index(m[x].1, v);
                        if w != a {
                            assert(m0.contains_key(w) && loads_index(m0[w].1, v));
                        }
                    }
                    if loads_index(i, v) {
                        assert(m.contains_key(a) && loads_index(m[a].1, v));
                    }
                }
            }
            assert(self.draw_sizes@ =~= sizes_of(m)) by {
                assert forall|v: u16| #[trigger] self.draw_sizes@.contains(v) <==> sizes_of(
                    m,
                ).contains(v) by {
                    if sizes_of(m0).contains(v) {
                        let w = choose|x: u16| #[trigger] m0.contains_key(x) && draws_rows(m0[x].1, v);
                        assert(m.contains_key(w) && draws_rows(m[w].1, v));
                    }
                    if sizes_of(m).contains(v) {
                        let w = choose|x: u16| #[trigger] m.contains_key(x) && draws_rows(m[x].1, v);
                        if w != a {
                            assert(m0.contains_key(w) && draws_rows(m0[w].1, v));
                        }
                    }
                    if draws_rows(i, v) {
                        assert(m.contains_key(a) && draws_rows(m[a].1, v));
                    }
                }
            }
            let l = self.labels@;
            assert forall|t: u16| #[trigger] l.contains_key(t) <==> (t == first || targeted(m, t)) by {
                if targeted(m0, t) {
                    let w = choose|x: u16| #[trigger] m0.contains_key(x) && branch_target(m0[x].1) == Some(t);
                    assert(m.contains_key(w) && branch_target(m[w].1) == Some(t));
                }
                if targeted(m, t) {
                    let w = choose|x: u16| #[trigger] m.contains_key(x) && branch_target(m[x].1) == Some(t);
                    if w != a {
                        assert(m0.contains_key(w) && branch_target(m0[w].1) == Some(t));
                    }
                }
                if branch_target(i) == Some(t) {
                    assert(m.contains_key(a) && branch_target(m[a].1) == Some(t));
                }
            }
            assert forall|t: u16| #[trigger] l.contains_key(t) && t != first implies l[t]@ == if called(
                m,
                t,
            ) {
                function_name(t)
            } else {
                label_name(t)
            } by {
                if called(m0, t) {
                    let w = choose|x: u16| #[trigger] m0.contains_key(x) && calls(m0[x].1, t);
                    assert(m.contains_key(w) && calls(m[w].1, t));
                }
                if called(m, t) {
                    let w = choose|x: u16| #[trigger] m.contains_key(x) && calls(m[x].1, t);
                    if w != a {
                        assert(m0.contains_key(w) && calls(m0[w].1, t));
                    }
                }
                if calls(i, t) {
                    assert(m.contains_key(a) && calls(m[a].1, t));
                }
                if branch_target(i) == Some(t) && !calls(i, t) && !l0.contains_key(t) {
                    assert(!targeted(m0, t));
                    if called(m0, t) {
                        let w = choose|x: u16| #[trigger] m0.contains_key(x) && calls(m0[x].1, t);
                        assert(branch_target(m0[w].1) == Some(t));
                    }
                }
            }
        }
    }
}


/// The set of addresses, as integers, that a map of instructions holds.
pub open spec fn addresses(m: Map<u16, (u16, Instruction)>) -> Set<int> {
    Set::new(|x: int| 0 <= x < 0x10000 && m.contains_key(x as u16))
}

proof fn lemma_addresses_bound(b: Seq<u8>, m: Map<u16, (u16, Instruction)>)
    requires
        entries_ok(b, m),
    ensures
        addresses(m).finite(),
        addresses(m).len() <= b.len(),
{
    reveal(entries_ok);
    lemma_int_range(0x200, 0x200 + b.len() as int);
    assert(addresses(m).subset_of(set_int_range(0x200, 0x200 + b.len() as int))) by {
        assert forall|x: int| #[trigger] addresses(m).contains(x) implies set_int_range(
            0x200,
            0x200 + b.len() as int,
        ).contains(x) by {
            assert(m.contains_key(x as u16));
            assert(decodes(b, (x as u16) as int));
        }
    }
    lemma_len_subset(addresses(m), set_int_range(0x200, 0x200 + b.len() as int));
}

proof fn lemma_addresses_insert(m: Map<u16, (u16, Instruction)>, a: u16, v: (u16, Instruction))
    requires
        !m.contains_key(a),
        addresses(m).finite(),
    ensures
        addresses(m.insert(a, v)) == addresses(m).insert(a as int),
        addresses(m.insert(a, v)).len() == addresses(m).len() + 1,
{
    assert(addresses(m.insert(a, v)) =~= addresses(m).insert(a as int));
}

impl<'a> Program<'a> {
    /// Decodes from `start` on, until an address that is decoded already, one
    /// that does not decode, or the end of the buffer.
    #[verifier::rlimit(60)]
    fn walk(&mut self, first: u16, start: u16, queue: &mut VecDeque<u16>)
        requires
            old(self).tracks(first, old(queue)@),
            closed_but(old(self).buffer@, first as int, old(self).instructions@, seq![start] + old(queue)@, None),
            forall|s: Set<int>| #[trigger]
                closed_flow(old(self).buffer@, first as int, s) ==> s.contains(start as int),
            addresses(old(self).instructions@).finite(),
            addresses(old(self).instructions@).len() <= old(self).buffer@.len(),
            0x200 <= start <= 0xfffe,
            start - 0x200 <= old(self).buffer@.len(),
        ensures
            final(self).buffer == old(self).buffer,
            final(self).tracks(first, final(queue)@),
            closed_but(final(self).buffer@, first as int, final(self).instructions@, final(queue)@, None),
            addresses(final(self).instructions@).finite(),
            addresses(final(self).instructions@).len() <= final(self).buffer@.len(),
            2 * (final(self).buffer@.len() - addresses(final(self).instructions@).len())
                + final(queue)@.len() <= 2 * (old(self).buffer@.len() - addresses(
                old(self).instructions@,
            ).len()) + old(queue)@.len(),
    {
        let ghost b = self.buffer@;
        let ghost sp = start as int;
        let ghost measure = 2 * (b.len() - addresses(self.instructions@).len()) + queue@.len();
        let mut reader = U16Reader(self.buffer, 0).starting_from(start);
        let ghost mut hole: Option<u16> = None;
        loop
            invariant_except_break
                self.buffer@ == b,
                sp == start as int,
                0x200 <= reader.1 <= 0xfffe,
                reader.1 - 0x200 <= b.len(),
                reader.0@ == b.skip(reader.1 - 0x200),
                hole matches Some(p) ==> p + 2 == reader.1 && self.instructions@.contains_key(p),
                hole is None ==> reader.1 == start,
                settled(b, self.instructions@, sp) || reader.1 == start,
                forall|s: Set<int>| #[trigger]
                    closed_flow(b, first as int, s) ==> s.contains(reader.1 as int),
                self.tracks(first, queue@),
                closed_but(b, first as int, self.instructions@, seq![start] + queue@, hole),
                addresses(self.instructions@).finite(),
                addresses(self.instructions@).len() <= b.len(),
                2 * (b.len() - addresses(self.instructions@).len()) + queue@.len() <= measure,
            ensures
                self.buffer@ == b,
                sp == start as int,
                self.tracks(first, queue@),
                settled(b, self.instructions@, sp),
                closed_but(b, first as int, self.instructions@, seq![start] + queue@, None),
                addresses(self.instructions@).finite(),
                addresses(self.instructions@).len() <= b.len(),
                2 * (b.len() - addresses(self.instructions@).len()) + queue@.len() <= measure,
            decreases 0x10000 - reader.1,
        {
            let ghost cur = reader.1 as int;
            let ghost m0 = self.instructions@;
            let ghost q0 = queue@;
            assert(cur == sp || settled(b, m0, sp));
            let (address, opcode) = match reader.next() {
                Some(p) => p,
                None => {
                    assert(!in_program(b, cur));
                    proof {
                        lemma_close_hole(b, first as int, m0, seq![start] + q0, hole, cur);
                    }
                    break;
                },
            };
            assert(address == cur);
            assert(opcode == word_at(b, cur));
            if self.instructions.contains_key(&address) {
                proof {
                    lemma_close_hole(b, first as int, m0, seq![start] + q0, hole, cur);
                }
                break;
            }
            let i = match Instruction::from_opcode(opcode) {
                Some(i) => i,
                None => {
                    assert(!decodes(b, cur));
                    proof {
                        lemma_close_hole(b, first as int, m0, seq![start] + q0, hole, cur);
                    }
                    break;
                },
            };
            proof {
                assert(entries_ok(b, m0)) by {
                    reveal(Program::tracks);
                }
                lemma_addresses_bound(b, m0);
                lemma_addresses_insert(m0, address, (opcode, i));
            }
            self.visit(first, address, opcode, i, queue);
            proof {
                assert(entries_ok(b, self.instructions@)) by {
                    reveal(Program::tracks);
                }
                lemma_addresses_bound(b, self.instructions@);
                lemma_visit_closes(
                    b,
                    first as int,
                    m0,
                    seq![start] + q0,
                    seq![start] + queue@,
                    hole,
                    address,
                    (opcode, i),
                );
                hole = Some(address);
            }
            if address > 0xfffc {
                proof {
                    assert(!in_program(b, address + 2));
                    lemma_close_hole(
                        b,
                        first as int,
                        self.instructions@,
                        seq![start] + queue@,
                        hole,
                        address + 2,
                    );
                }
                break;
            }
            proof {
                assert forall|s: Set<int>| #[trigger] closed_flow(b, first as int, s) implies s.contains(
                    reader.1 as int,
                ) by {
                    assert(s.contains(cur));
                }
            }
        }
        proof {
            lemma_drop_settled(b, first as int, self.instructions@, start, queue@);
        }
    }

    /// Decodes what control reaches from the jump a program starts with:
    /// the instructions at the addresses that [`listed`] gives, the sprite
    /// addresses they load, the sprite heights they draw, and their labels
    /// (see [`labels_ok`]). A program that does not start with a jump is
    /// refused.
    pub fn try_from(buffer: &'a [u8]) -> (r: Result<Self, &'static str>)
        ensures
            entry_of(buffer@) is None ==> r is Err,
            entry_of(buffer@) matches Some(first) ==> r matches Ok(p) && p.buffer@ == buffer@ && (
            forall|a: u16|
                #[trigger] p.instructions@.contains_key(a) <==> listed(
                    buffer@,
                    first as int,
                    a as int,
                )) && entries_ok(buffer@, p.instructions@) && p.sprites@ == sprites_of(
                p.instructions@,
            ) && p.draw_sizes@ == sizes_of(p.instructions@) && labels_ok(
                first,
                p.instructions@,
                p.labels@,
            ),
    {
        let first = match read_u16(buffer) {
            Some(op) => match Instruction::from_opcode(op) {
                Some(Instruction::Jump { target, adds_v0: false }) => target.value(),
                _ => {
                    return Err("Expected a jump, malformed binary.");
                },
            },
            None => {
                return Err("Expected a jump, malformed binary.");
            },
        };
        let ghost b = buffer@;
        let mut labels: HashMap<u16, String> = HashMap::new();
        let mut main = String::new();
        push_str(&mut main, "main");
        labels.insert(first, main);
        let mut queue: VecDeque<u16> = VecDeque::new();
        queue.push_back(first);
        let mut prog = Program {
            labels,
            sprites: HashSet::new(),
            instructions: BTreeMap::new(),
            draw_sizes: HashSet::new(),
            buffer,
        };
        proof {
            lemma_start(prog, first, queue@);
        }
        loop
            invariant
                prog.buffer@ == b,
                b == buffer@,
                prog.tracks(first, queue@),
                closed_but(b, first as int, prog.instructions@, queue@, None),
                addresses(prog.instructions@).finite(),
                addresses(prog.instructions@).len() <= b.len(),
            ensures
                prog.tracks(first, queue@),
                closed_but(b, first as int, prog.instructions@, queue@, None),
                queue@ == Seq::<u16>::empty(),
            decreases 2 * (b.len() - addresses(prog.instructions@).len()) + queue@.len(),
        {
            let ghost q_start = queue@;
            let start = match queue.pop_front() {
                Some(l) => l,
                None => {
                    assert(queue@ =~= Seq::<u16>::empty());
                    break;
                },
            };
            proof {
                assert(q_start == seq![start] + queue@);
                lemma_tracks_pop(prog, first, start, queue@);
            }
            if start < 0x200 || start > 0xfffe || start as usize - 0x200 > buffer.len() {
                proof {
                    lemma_skip_start(b, first as int, prog.instructions@, start, queue@);
                }
                continue;
            }
            prog.walk(first, start, &mut queue);
        }
        proof {
            lemma_finish(prog, first);
        }
        Ok(prog)
    }
}

/// A fresh program's bookkeeping, with the entry waiting.
proof fn lemma_start<'a>(p: Program<'a>, first: u16, q: Seq<u16>)
    requires
        p.instructions@ == Map::<u16, (u16, Instruction)>::empty(),
        p.sprites@ == Set::<u16>::empty(),
        p.draw_sizes@ == Set::<u16>::empty(),
        p.labels@ == Map::<u16, String>::empty().insert(first, p.labels@[first]),
        p.labels@[first]@ == "main"@,
        q == seq![first],
    ensures
        p.tracks(first, q),
        closed_but(p.buffer@, first as int, p.instructions@, q, None),
        addresses(p.instructions@).finite(),
        addresses(p.instructions@).len() <= p.buffer@.len(),
{
    reveal(entries_ok);
    reveal(sound);
    reveal(labels_ok);
    reveal(closed_but);
    reveal(Program::tracks);
    let m = p.instructions@;
    assert(p.sprites@ =~= sprites_of(m));
    assert(p.draw_sizes@ =~= sizes_of(m));
    assert(q[0] == first);
    assert(q.contains(first));
    lemma_addresses_bound(p.buffer@, m);
    assert forall|s: Set<int>| #[trigger] closed_flow(p.buffer@, first as int, s) implies (forall|a: u16|
        m.contains_key(a) ==> s.contains(a as int)) && (forall|k: int|
        0 <= k < q.len() ==> s.contains(q[k] as int)) by {
        assert forall|k: int| 0 <= k < q.len() implies s.contains(q[k] as int) by {
            assert(q[k] == first);
        }
    }
}

/// Taking the first waiting address keeps the bookkeeping, and that address
/// is reachable.
proof fn lemma_tracks_pop<'a>(p: Program<'a>, first: u16, start: u16, q: Seq<u16>)
    requires
        p.tracks(first, seq![start] + q),
    ensures
        p.tracks(first, q),
        sound(p.buffer@, first as int, p.instructions@, seq![start] + q),
        forall|s: Set<int>| #[trigger]
            closed_flow(p.buffer@, first as int, s) ==> s.contains(start as int),
{
    reveal(Program::tracks);
    reveal(sound);
    let full = seq![start] + q;
    assert forall|s: Set<int>| #[trigger] closed_flow(p.buffer@, first as int, s) implies (forall|a: u16|
        p.instructions@.contains_key(a) ==> s.contains(a as int)) && (forall|k: int|
        0 <= k < q.len() ==> s.contains(q[k] as int)) && s.contains(start as int) by {
        assert(full[0] == start);
        assert forall|k: int| 0 <= k < q.len() implies s.contains(q[k] as int) by {
            assert(q[k] == full[k + 1]);
        }
    }
}

/// With nothing waiting, the bookkeeping describes the whole listing.
proof fn lemma_finish<'a>(p: Program<'a>, first: u16)
    requires
        p.tracks(first, Seq::empty()),
        closed_but(p.buffer@, first as int, p.instructions@, Seq::empty(), None),
    ensures
        forall|a: u16|
            #[trigger] p.instructions@.contains_key(a) <==> listed(p.buffer@, first as int, a as int),
        entries_ok(p.buffer@, p.instructions@),
        p.sprites@ == sprites_of(p.instructions@),
        p.draw_sizes@ == sizes_of(p.instructions@),
        labels_ok(first, p.instructions@, p.labels@),
{
    reveal(Program::tracks);
    lemma_complete(p.buffer@, first, p.instructions@);
}

/// A start that does not decode need not wait.
proof fn lemma_skip_start(
    b: Seq<u8>,
    first: int,
    m: Map<u16, (u16, Instruction)>,
    start: u16,
    q: Seq<u16>,
)
    requires
        closed_but(b, first, m, seq![start] + q, None),
        sound(b, first, m, seq![start] + q),
        !decodes(b, start as int),
    ensures
        closed_but(b, first, m, q, None),
        sound(b, first, m, q),
{
    reveal(sound);
    lemma_drop_settled(b, first, m, start, q);
    let full = seq![start] + q;
    assert forall|s: Set<int>| #[trigger] closed_flow(b, first, s) implies (forall|a: u16|
        m.contains_key(a) ==> s.contains(a as int)) && (forall|k: int|
        0 <= k < q.len() ==> s.contains(q[k] as int)) by {
        assert forall|k: int| 0 <= k < q.len() implies s.contains(q[k] as int) by {
            assert(q[k] == full[k + 1]);
        }
    }
}

/// Once the address after the hole is settled, nothing is left open.
proof fn lemma_close_hole(
    b: Seq<u8>,
    first: int,
    m: Map<u16, (u16, Instruction)>,
    q: Seq<u16>,
    hole: Option<u16>,
    cur: int,
)
    requires
        closed_but(b, first, m, q, hole),
        hole matches Some(p) ==> p + 2 == cur,
        settled(b, m, cur),
    ensures
        closed_but(b, first, m, q, None),
{
    reveal(closed_but);
}

proof fn lemma_visit_closes(
    b: Seq<u8>,
    first: int,
    m0: Map<u16, (u16, Instruction)>,
    q0: Seq<u16>,
    q1: Seq<u16>,
    hole: Option<u16>,
    a: u16,
    v: (u16, Instruction),
)
    requires
        closed_but(b, first, m0, q0, hole),
        hole matches Some(p) ==> p + 2 == a,
        hole is None ==> q0.len() > 0 && q0[0] == a,
        branch_target(v.1) matches Some(t) ==> q1 == q0.push(t),
        branch_target(v.1) is None ==> q1 == q0,
    ensures
        closed_but(b, first, m0.insert(a, v), q1, Some(a)),
{
    reveal(closed_but);
    let m = m0.insert(a, v);
    assert forall|x: int| #[trigger] settled(b, m0, x) implies settled(b, m, x) by {}
    assert forall|t: u16| q0.contains(t) implies q1.contains(t) by {
        if q0.contains(t) {
            let k = choose|k: int| 0 <= k < q0.len() && q0[k] == t;
            assert(q1[k] == t);
        }
    }
    assert forall|x: u16| #[trigger] m.contains_key(x) && Some(a) != Some(x) implies settled(b, m, x + 2) by {
        if hole != Some(x) {
            assert(settled(b, m0, x + 2));
        }
    }
    assert forall|x: u16| #[trigger] m.contains_key(x) && branch_target(m[x].1) is Some implies settled(
        b,
        m,
        branch_target(m[x].1)->Some_0 as int,
    ) || q1.contains(branch_target(m[x].1)->Some_0) by {
        if x == a {
            let t = branch_target(v.1)->Some_0;
            assert(q1[q1.len() - 1] == t);
        } else {
            assert(m0.contains_key(x));
        }
    }
}

/// The walk from `start` leaves `start` settled, so it need not wait any
/// longer.
proof fn lemma_drop_settled(
    b: Seq<u8>,
    first: int,
    m: Map<u16, (u16, Instruction)>,
    start: u16,
    q: Seq<u16>,
)
    requires
        closed_but(b, first, m, seq![start] + q, None),
        settled(b, m, start as int),
    ensures
        closed_but(b, first, m, q, None),
{
    reveal(closed_but);
    let full = seq![start] + q;
    assert forall|t: u16| full.contains(t) && t != start implies q.contains(t) by {
        let k = choose|k: int| 0 <= k < full.len() && full[k] == t;
        assert(q[k - 1] == t);
    }
    if full.contains(first as u16) && first as u16 == start {
        assert(settled(b, m, first)) by {
            assert(closed_but(b, first, m, full, None));
        }
    }
}

/// When nothing waits, every reachable address that decodes is decoded.
proof fn lemma_complete(b: Seq<u8>, first: u16, m: Map<u16, (u16, Instruction)>)
    requires
        entries_ok(b, m),
        sound(b, first as int, m, Seq::empty()),
        closed_but(b, first as int, m, Seq::empty(), None),
    ensures
        forall|a: u16| #[trigger] m.contains_key(a) <==> listed(b, first as int, a as int),
{
    reveal(entries_ok);
    reveal(sound);
    reveal(closed_but);
    let s = Set::new(|x: int| settled(b, m, x));
    assert(closed_flow(b, first as int, s)) by {
        assert forall|a: int| #[trigger] s.contains(a) && decodes(b, a) implies s.contains(a + 2) by {
            assert(m.contains_key(a as u16));
            assert((a as u16) as int == a);
        }
        assert forall|a: int|
            #[trigger] s.contains(a) && decodes(b, a) && branch_target(insn_at(b, a)) is Some
            implies s.contains(branch_target(insn_at(b, a))->Some_0 as int) by {
            assert(m.contains_key(a as u16));
            assert((a as u16) as int == a);
        }
    }
    assert forall|a: u16| #[trigger] m.contains_key(a) <==> listed(b, first as int, a as int) by {
        if listed(b, first as int, a as int) {
            assert(s.contains(a as int));
        }
        if m.contains_key(a) {
            assert forall|t: Set<int>| #[trigger] closed_flow(b, first as int, t) implies t.contains(a as int) by {}
        }
    }
}


/// The lines a listing shows for address `a`: its label, if it has one, then
/// the address, the opcode, the mnemonic and the operands, coloured for a
/// terminal.
pub open spec fn line_of<'a>(p: Program<'a>, a: u16) -> Seq<char> {
    let (op, i) = p.instructions@[a];
    (if p.labels@.contains_key(a) {
        "\x1b[38;5;49m"@ + p.labels@[a]@ + ":\x1b[m\n"@
    } else {
        Seq::empty()
    }) + "\x1b[38;5;239m"@ + hex_padded(a as nat, 4, true) + " \x1b[38;5;236m"@ + hex_padded(
        op as nat,
        4,
        false,
    ) + " \x1b[38;5;204m"@ + mnemonic(i) + " "@ + args_text(i, p.labels@, p.sprites@)
        + "\x1b[m\n"@
}

/// The listing from address `a` on, in increasing order of address.
pub open spec fn listing_from<'a>(p: Program<'a>, a: int) -> Seq<char>
    decreases 0x10000 - a,
{
    if a < 0 || a >= 0x10000 {
        Seq::empty()
    } else {
        (if p.instructions@.contains_key(a as u16) {
            line_of(p, a as u16)
        } else {
            Seq::empty()
        }) + listing_from(p, a + 1)
    }
}

impl<'a> Program<'a> {
    /// The listing of the program; see [`listing_from`].
    pub fn render(&self) -> (r: String)
        ensures
            r@ == listing_from(*self, 0),
    {
        let mut out = String::new();
        let mut a: usize = 0;
        while a < 0x10000
            invariant
                a <= 0x10000,
                out@ + listing_from(*self, a as int) == listing_from(*self, 0),
            decreases 0x10000 - a,
        {
            let addr = a as u16;
            let ghost before = out@;
            match self.instructions.get(&addr) {
                Some(entry) => {
                    let (op, i) = *entry;
                    match self.labels.get(&addr) {
                        Some(name) => {
                            push_str(&mut out, "\x1b[38;5;49m");
                            push_str(&mut out, name.as_str());
                            push_str(&mut out, ":\x1b[m\n");
                        },
                        None => {},
                    }
                    push_str(&mut out, "\x1b[38;5;239m");
                    let h = hex(addr, 4, true);
                    push_str(&mut out, h.as_str());
                    push_str(&mut out, " \x1b[38;5;236m");
                    let h = hex(op, 4, false);
                    push_str(&mut out, h.as_str());
                    push_str(&mut out, " \x1b[38;5;204m");
                    push_str(&mut out, i.name_str());
                    push_str(&mut out, " ");
                    let args = i.format_args(&self.labels, &self.sprites);
                    push_str(&mut out, args.as_str());
                    push_str(&mut out, "\x1b[m\n");
                    proof {
                        assert(out@ =~= before + line_of(*self, addr));
                    }
                },
                None => {
                    assert(out@ =~= before + Seq::<char>::empty());
                },
            }
            proof {
                assert(listing_from(*self, a as int) == (if self.instructions@.contains_key(addr) {
                    line_of(*self, addr)
                } else {
                    Seq::empty()
                }) + listing_from(*self, a + 1));
                if self.instructions@.contains_key(addr) {
                    assert(before + (line_of(*self, addr) + listing_from(*self, a + 1)) =~= (before
                        + line_of(*self, addr)) + listing_from(*self, a + 1));
                } else {
                    assert(before + (Seq::<char>::empty() + listing_from(*self, a + 1)) =~= before
                        + listing_from(*self, a + 1));
                }
            }
            a += 1;
        }
        assert(out@ + listing_from(*self, 0x10000) =~= out@);
        out
    }
}

} // verus!
