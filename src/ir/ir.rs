use vstd::prelude::*;

verus! {

/// The intermediate representation produced by semantic analysis.
#[derive(Debug, PartialEq)]
pub enum IR {
    Empty,
    Program(Vec<Box<IR>>),
    /// `<tag>` with its children.
    Element(String, Vec<Box<IR>>),
    /// Text, emitted as it is.
    String(String),
    /// A function declaration of the declaration dialect.
    DeclFunc(String),
}

/// The mathematical value of an `IR` node.
pub ghost enum IRView {
    Empty,
    Program(Seq<IRView>),
    Element(Seq<char>, Seq<IRView>),
    Text(Seq<char>),
    DeclFunc(Seq<char>),
}

/// The views of a sequence of boxed nodes.
pub open spec fn nodes_view(nodes: Seq<Box<IR>>) -> Seq<IRView> {
    Seq::new(
        nodes.len(),
        |i: int|
            if 0 <= i < nodes.len() {
                nodes[i].view_of()
            } else {
                IRView::Empty
            },
    )
}

impl IR {
    pub open spec fn view_of(self) -> IRView
        decreases self,
    {
        match self {
            IR::Empty => IRView::Empty,
            IR::Program(nodes) => IRView::Program(
                Seq::new(
                    nodes.len() as nat,
                    |i: int|
                        if 0 <= i < nodes.len() {
                            nodes[i].view_of()
                        } else {
                            IRView::Empty
                        },
                ),
            ),
            IR::Element(tag, nodes) => IRView::Element(
                tag@,
                Seq::new(
                    nodes.len() as nat,
                    |i: int|
                        if 0 <= i < nodes.len() {
                            nodes[i].view_of()
                        } else {
                            IRView::Empty
                        },
                ),
            ),
            IR::String(text) => IRView::Text(text@),
            IR::DeclFunc(name) => IRView::DeclFunc(name@),
        }
    }
}

impl View for IR {
    type V = IRView;

    open spec fn view(&self) -> IRView {
        self.view_of()
    }
}

pub proof fn lemma_program_view(nodes: Vec<Box<IR>>)
    ensures
        IR::Program(nodes)@ == IRView::Program(nodes_view(nodes@)),
{
    let v = IR::Program(nodes)@;
    assert(v->Program_0 =~= nodes_view(nodes@));
}

pub proof fn lemma_element_view(tag: String, nodes: Vec<Box<IR>>)
    ensures
        IR::Element(tag, nodes)@ == IRView::Element(tag@, nodes_view(nodes@)),
{
    let v = IR::Element(tag, nodes)@;
    assert(v->Element_1 =~= nodes_view(nodes@));
}

} // verus!
