use vstd::prelude::*;

verus! {

/// A parsed source file.
#[derive(Debug, PartialEq)]
pub enum Ast {
    Program(Vec<Stmt>),
}

/// One statement of the syntax tree.
#[derive(Debug, PartialEq)]
pub enum Stmt {
    /// Nothing was parsed.
    Empty,
    /// `<tag> { children }`
    Element(String, Vec<Stmt>),
    /// A string literal.
    String(String),
    /// `name: fn` in the declaration dialect.
    DeclFunc(String),
}

/// The mathematical value of a `Stmt`.
pub ghost enum StmtView {
    Empty,
    Element(Seq<char>, Seq<StmtView>),
    Text(Seq<char>),
    DeclFunc(Seq<char>),
}

impl Stmt {
    pub open spec fn view_of(self) -> StmtView
        decreases self,
    {
        match self {
            Stmt::Empty => StmtView::Empty,
            Stmt::Element(tag, children) => StmtView::Element(
                tag@,
                Seq::new(
                    children.len() as nat,
                    |i: int|
                        if 0 <= i < children.len() {
                            children[i].view_of()
                        } else {
                            StmtView::Empty
                        },
                ),
            ),
            Stmt::String(text) => StmtView::Text(text@),
            Stmt::DeclFunc(name) => StmtView::DeclFunc(name@),
        }
    }
}

impl View for Stmt {
    type V = StmtView;

    open spec fn view(&self) -> StmtView {
        self.view_of()
    }
}

/// The views of a sequence of statements.
pub open spec fn stmts_view(stmts: Seq<Stmt>) -> Seq<StmtView> {
    stmts.map_values(|s: Stmt| s@)
}

/// The view of an element is made of the views of its children.
pub proof fn lemma_element_view(tag: String, children: Vec<Stmt>)
    ensures
        Stmt::Element(tag, children)@ == StmtView::Element(tag@, stmts_view(children@)),
{
    let v = Stmt::Element(tag, children)@;
    assert(v->Element_1 =~= stmts_view(children@));
}

} // verus!
