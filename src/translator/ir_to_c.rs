use crate::ir::ir::{IRView, IR};
use vstd::prelude::*;
use vstd::string::StringExecFns;

verus! {

/// The stub of a node: an empty function definition for a declaration, nothing for
/// any other node (the children of a program are not visited).
pub open spec fn c_stub(ir: IRView) -> Seq<char> {
    match ir {
        IRView::DeclFunc(name) => "void "@ + name + "() {\n}\n"@,
        _ => Seq::empty(),
    }
}

/// Two translations of the same IR, each into a fresh buffer, give the same text: what
/// `translate` returns depends on the IR and the buffer alone.
pub proof fn lemma_translate_repeatable(ir: IRView, first: Seq<char>, second: Seq<char>)
    requires
        first == Seq::<char>::empty() + c_stub(ir),
        second == Seq::<char>::empty() + c_stub(ir),
    ensures
        first == second,
        first == c_stub(ir),
{
    assert(Seq::<char>::empty() + c_stub(ir) =~= c_stub(ir));
}

/// Renders function declarations as empty C function definitions into a growing buffer.
pub struct TranslatorC {
    pub output: String,
}

impl TranslatorC {
    /// Appends the stub of `ir` to the buffer and returns the whole buffer.
    pub fn translate(&mut self, ir: &IR) -> (r: String)
        ensures
            final(self).output@ == old(self).output@ + c_stub(ir@),
            r@ == final(self).output@,
    {
        let ghost start = self.output@;
        match ir {
            IR::DeclFunc(s) => {
                self.output.append("void ");
                self.output.append(s.as_str());
                self.output.append("() {\n}\n");
            },
            _ => {},
        }
        assert(self.output@ =~= start + c_stub(ir@));
        self.output.clone()
    }
}

} // verus!
