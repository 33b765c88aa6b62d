use std::rc::Rc;
use vstd::prelude::*;

use super::ir::{lemma_element_view, lemma_program_view, nodes_view, IRView, IR};
use super::symbol_table::{resolve_type, Module, Type};
use crate::parser::ast::{stmts_view, Ast, Stmt, StmtView};

verus! {

/// The IR a statement lowers to: elements, text and declarations keep their shape;
/// anything else becomes `Empty`.
pub open spec fn lower(s: StmtView) -> IRView
    decreases s,
{
    match s {
        StmtView::Element(tag, children) => IRView::Element(
            tag,
            Seq::new(
                children.len(),
                |i: int|
                    if 0 <= i < children.len() {
                        lower(children[i])
                    } else {
                        IRView::Empty
                    },
            ),
        ),
        StmtView::Text(text) => IRView::Text(text),
        StmtView::DeclFunc(name) => IRView::DeclFunc(name),
        StmtView::Empty => IRView::Empty,
    }
}

/// The IR of each statement of a sequence.
pub open spec fn lower_all(ss: Seq<StmtView>) -> Seq<IRView> {
    Seq::new(ss.len(), |i: int| lower(ss[i]))
}

/// The IR of a program made of the statements `ss`.
pub open spec fn lower_program(ss: Seq<StmtView>) -> IRView {
    IRView::Program(lower_all(ss))
}

/// The IR node and the type resolved for it.
pub type AnalizeResult = (IR, Rc<Type>);

/// Lowers a syntax tree to IR. It holds the root scope, in which the sentinel type
/// `none` is registered; every node resolves to that type.
pub struct SemanticalAnalizer {
    module: Module,
}

impl SemanticalAnalizer {
    /// The sentinel type is registered.
    pub closed spec fn wf(&self) -> bool {
        resolve_type(self.module, "none"@) is Some
    }

    /// The sentinel type `none`.
    pub closed spec fn none_type(&self) -> Rc<Type> {
        resolve_type(self.module, "none"@)->Some_0
    }

    pub fn new() -> (r: SemanticalAnalizer)
        ensures
            r.wf(),
            r.none_type().fields@.len() == 0,
    {
        let mut module = Module::new();
        module.add_type("none", Type::new());
        SemanticalAnalizer { module }
    }

    /// The sentinel type, looked up in the scope.
    pub fn none(&self) -> (r: Rc<Type>)
        requires
            self.wf(),
        ensures
            r == self.none_type(),
    {
        match self.module.solve_type("none") {
            Some(t) => t,
            None => {
                proof {
                    assert(false);
                }
                Rc::new(Type::new())
            },
        }
    }

    pub fn analize(&self, ast: &Ast) -> (r: AnalizeResult)
        requires
            self.wf(),
        ensures
            match ast {
                Ast::Program(statements) => r.0@ == lower_program(stmts_view(statements@)),
            },
            r.1 == self.none_type(),
    {
        match ast {
            Ast::Program(statements) => self.analize_program(statements),
        }
    }

    fn analize_program(&self, statements: &Vec<Stmt>) -> (r: AnalizeResult)
        requires
            self.wf(),
        ensures
            r.0@ == lower_program(stmts_view(statements@)),
            r.1 == self.none_type(),
    {
        let nodes = self.analize_all(statements);
        proof {
            lemma_program_view(nodes);
        }
        (IR::Program(nodes), self.none())
    }

    /// The IR of each statement, in order.
    fn analize_all(&self, statements: &Vec<Stmt>) -> (r: Vec<Box<IR>>)
        requires
            self.wf(),
        ensures
            nodes_view(r@) == lower_all(stmts_view(statements@)),
        decreases statements, 0int,
    {
        let mut nodes: Vec<Box<IR>> = Vec::new();
        let mut i: usize = 0;
        while i < statements.len()
            invariant
                self.wf(),
                i <= statements@.len(),
                nodes@.len() == i,
                forall|j: int| 0 <= j < i ==> #[trigger] nodes@[j].view_of() == lower(statements@[j]@),
            decreases statements@.len() - i,
        {
            proof {
                assert(decreases_to!(statements => statements@[i as int]));
            }
            let (node, _) = self.analize_stmt(&statements[i]);
            nodes.push(Box::new(node));
            i = i + 1;
        }
        assert(nodes_view(nodes@) =~= lower_all(stmts_view(statements@)));
        nodes
    }

    pub fn analize_stmt(&self, stmt: &Stmt) -> (r: AnalizeResult)
        requires
            self.wf(),
        ensures
            r.0@ == lower(stmt@),
            r.1 == self.none_type(),
        decreases stmt, 1int,
    {
        match stmt {
            Stmt::Element(tag, children) => {
                let nodes = self.analize_all(children);
                let name = tag.clone();
                proof {
                    lemma_element_view(name, nodes);
                    assert(lower(stmt@)->Element_1 =~= lower_all(stmts_view(children@)));
                }
                (IR::Element(name, nodes), self.none())
            },
            Stmt::String(text) => (IR::String(text.clone()), self.none()),
            Stmt::DeclFunc(name) => self.analize_function_decl(name),
            Stmt::Empty => (IR::Empty, self.none()),
        }
    }

    pub fn analize_function_decl(&self, name: &String) -> (r: AnalizeResult)
        requires
            self.wf(),
        ensures
            r.0@ == IRView::DeclFunc(name@),
            r.1 == self.none_type(),
    {
        (IR::DeclFunc(name.clone()), self.none())
    }
}

} // verus!
