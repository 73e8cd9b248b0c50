//! Pass manager: transformations of a module, run one after the other.

use crate::ir::module::IrModule;
use vstd::prelude::*;

verus! {

/// A transformation of a module.
pub trait Pass {
    /// The module that the pass makes of a module.
    spec fn result(&self, m: IrModule) -> IrModule;

    fn name(&self) -> (s: &'static str);

    fn run(&self, module: &mut IrModule)
        ensures
            *final(module) == self.result(*old(module)),
    ;
}

/// Passes in the order in which they run.
pub struct PassManager {
    passes: Vec<Box<dyn Pass>>,
}

/// The module that passes make of a module, one after the other.
pub open spec fn through(passes: Seq<Box<dyn Pass>>, m: IrModule) -> IrModule
    decreases passes.len(),
{
    if passes.len() == 0 {
        m
    } else {
        passes.last().result(through(passes.drop_last(), m))
    }
}

impl View for PassManager {
    type V = Seq<Box<dyn Pass>>;

    closed spec fn view(&self) -> Seq<Box<dyn Pass>> {
        self.passes@
    }
}

impl Default for PassManager {
    fn default() -> (p: Self)
        ensures
            p@ == Seq::<Box<dyn Pass>>::empty(),
    {
        PassManager { passes: Vec::new() }
    }
}

impl PassManager {
    /// Adds a pass at the end.
    pub fn add(&mut self, pass: Box<dyn Pass>)
        ensures
            final(self)@ == old(self)@.push(pass),
    {
        self.passes.push(pass);
    }

    /// Runs the passes on a module.
    pub fn run(&self, module: &mut IrModule)
        ensures
            *final(module) == through(self@, *old(module)),
    {
        let mut i: usize = 0;
        while i < self.passes.len()
            invariant
                i <= self@.len(),
                *module == through(self@.subrange(0, i as int), *old(module)),
            decreases self@.len() - i,
        {
            self.passes[i].run(module);
            i = i + 1;
            proof {
                let s = self@.subrange(0, i as int);
                assert(s.drop_last() =~= self@.subrange(0, i - 1));
            }
        }
        assert(self@.subrange(0, i as int) =~= self@);
    }
}

/// Passes run in the order in which they were added, each on what the one before
/// it left.
pub proof fn lemma_passes_in_order(passes: Seq<Box<dyn Pass>>, m: IrModule)
    ensures
        passes.len() == 0 ==> through(passes, m) == m,
        passes.len() > 0 ==> through(passes, m) == passes.last().result(
            through(passes.drop_last(), m),
        ),
{
}

} // verus!
