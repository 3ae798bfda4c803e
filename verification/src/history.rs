//! An append-only list of instruction descriptors with lookup by mnemonic.

use vstd::prelude::*;

use crate::instructions::{lemma_lookup_at, lemma_lookup_none, spec_lookup, Instruction};
use crate::text::str_eq;

verus! {

pub struct History {
    pub instructions: Vec<Instruction>,
}

impl History {
    pub fn new() -> (r: Self)
        ensures
            r.instructions@ == Seq::<Instruction>::empty(),
    {
        let v: Vec<Instruction> = Vec::new();
        proof {
            assert(v@ =~= Seq::<Instruction>::empty());
        }
        History { instructions: v }
    }

    pub fn add_instruction(&mut self, instr: Instruction)
        ensures
            final(self).instructions@ == old(self).instructions@.push(instr),
    {
        self.instructions.push(instr);
    }

    /// The first recorded descriptor with the given mnemonic, if any.
    pub fn get_instruction_by_name(&self, op_name: &str) -> (r: Option<&Instruction>)
        ensures
            match r {
                Some(i) => spec_lookup(self.instructions@, op_name@) == Some(*i),
                None => spec_lookup(self.instructions@, op_name@) is None,
            },
    {
        let mut j: usize = 0;
        while j < self.instructions.len()
            invariant
                0 <= j <= self.instructions@.len(),
                forall|k: int| 0 <= k < j ==> self.instructions@[k].op_name@ != op_name@,
            decreases self.instructions@.len() - j,
        {
            let entry = &self.instructions[j];
            if str_eq(entry.op_name.as_str(), op_name) {
                proof {
                    lemma_lookup_at(self.instructions@, op_name@, j as int);
                }
                return Some(entry);
            }
            j += 1;
        }
        proof {
            lemma_lookup_none(self.instructions@, op_name@);
        }
        None
    }
}

} // verus!
