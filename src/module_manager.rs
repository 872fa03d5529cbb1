use vstd::prelude::*;

verus! {

/// One source file: its text and the path it was read from.
#[derive(Debug)]
pub struct Module {
    pub src: String,
    pub path: String,
}

/// The modules of a program, in the order they were discovered.
#[derive(Debug)]
pub struct ModuleManager {
    modules: Vec<Module>,
}

impl ModuleManager {
    /// Takes the modules that the caller has read.
    pub fn with_modules(modules: Vec<Module>) -> (r: ModuleManager)
        ensures
            r.modules() == modules@,
    {
        ModuleManager { modules }
    }

    pub closed spec fn modules(&self) -> Seq<Module> {
        self.modules@
    }

    /// Hands the modules over, leaving none.
    pub fn take_modules(&mut self) -> (r: Vec<Module>)
        ensures
            r@ == old(self).modules(),
            final(self).modules() == Seq::<Module>::empty(),
    {
        let mut modules: Vec<Module> = Vec::new();
        std::mem::swap(&mut modules, &mut self.modules);
        modules
    }

    pub fn get_ref(&self) -> (r: &Vec<Module>)
        ensures
            r@ == self.modules(),
    {
        &self.modules
    }

    pub fn get_mut_ref(&mut self) -> (r: &mut Vec<Module>)
        ensures
            r@ == old(self).modules(),
            final(self).modules() == final(r)@,
    {
        &mut self.modules
    }
}

} // verus!
