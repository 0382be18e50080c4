//! The syntax tree of a script, as its parser gives it.

use crate::project::{dotted, dotted_text};
use vstd::prelude::*;

verus! {

/// What a node is.
#[derive(Debug, Clone, Copy, PartialEq, Eq, Structural)]
pub enum NodeKind {
    /// An assignment.
    AssignmentStatement,
    /// An expression that stands alone.
    ExpressionStatement,
    /// The declaration of a local.
    LocalDeclaration,
    /// An `if`.
    IfStatement,
    /// A `when`.
    WhenStatement,
    /// An `expand`.
    ExpandStatement,
    /// A block.
    Block,
    /// An empty statement.
    EmptyStatement,
    /// A call.
    CallExpression,
    /// A member of an object.
    MemberExpression,
    /// A name.
    Identifier,
    /// The word `static`.
    Static,
    /// Anything else.
    Other,
}

/// The role of a node below its parent.
#[derive(Debug, Clone, Copy, PartialEq, Eq, Structural)]
pub enum NodeField {
    /// What a call calls.
    Function,
    /// The object of a member expression.
    Object,
    /// The member of a member expression.
    Property,
    /// The name of a declaration.
    Name,
    /// Any other role.
    Other,
}

/// A node.
#[derive(Debug)]
pub struct SyntaxNode {
    /// What it is.
    pub kind: NodeKind,
    /// The grammar's name of its kind.
    pub kind_name: String,
    /// The text it covers.
    pub text: String,
    /// Its role.
    pub field: NodeField,
    /// Whether the grammar names it.
    pub named: bool,
    /// The nodes below it, in order.
    pub children: Vec<SyntaxNode>,
}

/// A parsed script.
#[derive(Debug)]
pub struct ParsedScript {
    /// The file name.
    pub name: String,
    /// The tree.
    pub root: SyntaxNode,
}

/// The position of the first node with a role, or the count.
pub open spec fn field_index(nodes: Seq<SyntaxNode>, field: NodeField) -> nat
    decreases nodes.len(),
{
    if nodes.len() == 0 || nodes[0].field == field {
        0
    } else {
        1 + field_index(nodes.drop_first(), field)
    }
}

/// What is found has the role.
pub proof fn lemma_field_index(nodes: Seq<SyntaxNode>, field: NodeField)
    ensures
        field_index(nodes, field) <= nodes.len(),
        field_index(nodes, field) < nodes.len() ==> nodes[field_index(nodes, field) as int].field
            == field,
    decreases nodes.len(),
{
    if nodes.len() > 0 && nodes[0].field != field {
        lemma_field_index(nodes.drop_first(), field);
    }
}

impl SyntaxNode {
    /// The first child with a role.
    pub open spec fn by_field(self, field: NodeField) -> Option<SyntaxNode> {
        let i = field_index(self.children@, field);
        if i < self.children@.len() {
            Some(self.children@[i as int])
        } else {
            None
        }
    }

    /// The first child with a role.
    pub fn child_by_field(&self, field: NodeField) -> (r: Option<&SyntaxNode>)
        ensures
            match self.by_field(field) {
                Some(n) => r matches Some(x) && *x == n,
                None => r is None,
            },
            r matches Some(x) ==> decreases_to!(*self => *x),
    {
        let mut i: usize = 0;
        let ghost all = self.children@;
        assert(all.skip(0) =~= all);
        while i < self.children.len()
            invariant
                i <= all.len(),
                all == self.children@,
                field_index(all, field) == i + field_index(all.skip(i as int), field),
            decreases all.len() - i,
        {
            assert(all.skip(i as int)[0] == all[i as int]);
            assert(all.skip(i as int).drop_first() =~= all.skip(i + 1));
            if self.children[i].field == field {
                return Some(&self.children[i]);
            }
            i = i + 1;
        }
        None
    }

    /// The dotted name of a member expression, and the text of any other node. A member
    /// expression without both parts has none.
    pub open spec fn flattened(self) -> Option<Seq<char>>
        decreases self,
    {
        if self.kind is MemberExpression {
            let i = field_index(self.children@, NodeField::Object);
            if i < self.children@.len() {
                match (
                    self.children@[i as int].flattened(),
                    self.by_field(NodeField::Property),
                ) {
                    (Some(o), Some(p)) => Some(dotted(o, p.text@)),
                    _ => None,
                }
            } else {
                None
            }
        } else {
            Some(self.text@)
        }
    }

    /// The dotted name of a member expression, and the text of any other node.
    pub fn flatten_member(&self) -> (r: Option<String>)
        ensures
            match self.flattened() {
                Some(s) => r matches Some(x) && x@ == s,
                None => r is None,
            },
        decreases self,
    {
        if self.kind != NodeKind::MemberExpression {
            return Some(self.text.clone());
        }
        match self.child_by_field(NodeField::Object) {
            None => None,
            Some(object) => match (object.flatten_member(), self.child_by_field(NodeField::Property)) {
                (Some(o), Some(p)) => Some(dotted_text(o.as_str(), p.text.as_str())),
                _ => None,
            },
        }
    }

    /// The receiver and the method of a call on an object.
    pub open spec fn object_method(self) -> Option<(Seq<char>, Seq<char>)> {
        match self.by_field(NodeField::Function) {
            Some(callee) if callee.kind is MemberExpression => match (
                callee.by_field(NodeField::Object),
                callee.by_field(NodeField::Property),
            ) {
                (Some(o), Some(p)) => match o.flattened() {
                    Some(s) => Some((s, p.text@)),
                    None => None,
                },
                _ => None,
            },
            _ => None,
        }
    }

    /// The receiver and the method of a call on an object.
    pub fn call_object_method(&self) -> (r: Option<(String, String)>)
        ensures
            match self.object_method() {
                Some(x) => r matches Some(y) && y.0@ == x.0 && y.1@ == x.1,
                None => r is None,
            },
    {
        match self.child_by_field(NodeField::Function) {
            None => None,
            Some(callee) => {
                if callee.kind != NodeKind::MemberExpression {
                    return None;
                }
                match (
                    callee.child_by_field(NodeField::Object),
                    callee.child_by_field(NodeField::Property),
                ) {
                    (Some(o), Some(p)) => match o.flatten_member() {
                        Some(s) => Some((s, p.text.clone())),
                        None => None,
                    },
                    _ => None,
                }
            },
        }
    }

    /// Whether a child is the word `static`.
    pub open spec fn is_static(self) -> bool {
        exists|i: int| 0 <= i < self.children@.len() && (#[trigger] self.children@[i]).kind is Static
    }

    /// Whether a child is the word `static`.
    pub fn has_static(&self) -> (r: bool)
        ensures
            r == self.is_static(),
    {
        let mut i: usize = 0;
        while i < self.children.len()
            invariant
                i <= self.children.len(),
                forall|j: int| 0 <= j < i ==> !((#[trigger] self.children@[j]).kind is Static),
            decreases self.children.len() - i,
        {
            if self.children[i].kind == NodeKind::Static {
                assert(self.children@[i as int].kind is Static);
                return true;
            }
            i = i + 1;
        }
        false
    }
}

} // verus!
