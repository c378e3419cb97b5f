//! The syntax tree that the engines read.
//!
//! A parsed source file is held as plain values: declarations with their names,
//! the annotations attached to them, and the expressions of function bodies.
//! Every type has a mathematical model (`Seq`-based) that the contracts of the
//! other modules speak about.

use vstd::prelude::*;

verus! {

/// The kinds of declaration that open a scope of their own.
#[derive(Clone, Copy, Debug, PartialEq, Eq, Structural)]
pub enum ScopeKind {
    Module,
    Struct,
    Enum,
    Variant,
    Impl,
    Function,
}

/// An annotation as written in the source: the segments of its name and the
/// token text of the whole annotation, payload included.
#[derive(Debug, PartialEq, Eq)]
pub struct Annotation {
    pub path: Vec<String>,
    pub tokens: String,
}

/// Model of an [`Annotation`].
pub struct AnnotationModel {
    pub path: Seq<Seq<char>>,
    pub tokens: Seq<char>,
}

impl View for Annotation {
    type V = AnnotationModel;

    open spec fn view(&self) -> AnnotationModel {
        AnnotationModel { path: self.path.deep_view(), tokens: self.tokens@ }
    }
}

impl DeepView for Annotation {
    type V = AnnotationModel;

    open spec fn deep_view(&self) -> AnnotationModel {
        self@
    }
}

/// Copies a list of strings.
pub fn copy_strings(strings: &Vec<String>) -> (copy: Vec<String>)
    ensures
        copy.deep_view() == strings.deep_view(),
{
    let mut copy: Vec<String> = Vec::new();
    let mut i: usize = 0;
    while i < strings.len()
        invariant
            i <= strings.len(),
            copy.len() == i,
            forall|j: int| 0 <= j < i ==> copy[j]@ == strings[j]@,
        decreases strings.len() - i,
    {
        copy.push(strings[i].clone());
        i += 1;
    }
    assert(copy.deep_view() =~= strings.deep_view());
    copy
}

impl Clone for Annotation {
    fn clone(&self) -> (copy: Self)
        ensures
            copy@ == self@,
    {
        Annotation { path: copy_strings(&self.path), tokens: self.tokens.clone() }
    }
}

/// An expression of a function body, reduced to the shapes that contract
/// checking looks at. Every other construct is an `Other` node that keeps its
/// sub-expressions in source order.
#[derive(Debug, PartialEq, Eq)]
pub enum Expr {
    /// A path such as `helper` or `a::b::helper`.
    Path(Vec<String>),
    /// A field access `base.member`.
    Field { base: Box<Expr>, member: String },
    /// An assignment `target = value`, plain or compound.
    Assign { target: Box<Expr>, value: Box<Expr> },
    /// A call `callee(args)`.
    Call { callee: Box<Expr>, args: Vec<Expr> },
    /// A method call `receiver.method(args)`.
    MethodCall { receiver: Box<Expr>, method: String, args: Vec<Expr> },
    /// Any other expression or statement.
    Other(Vec<Expr>),
}

/// Model of an [`Expr`].
pub enum ExprModel {
    Path(Seq<Seq<char>>),
    Field { base: Box<ExprModel>, member: Seq<char> },
    Assign { target: Box<ExprModel>, value: Box<ExprModel> },
    Call { callee: Box<ExprModel>, args: Seq<ExprModel> },
    MethodCall { receiver: Box<ExprModel>, method: Seq<char>, args: Seq<ExprModel> },
    Other(Seq<ExprModel>),
}

/// The model of an expression; the models of a list of expressions are taken
/// element by element.
pub open spec fn expr_model(e: Expr) -> ExprModel
    decreases e,
{
    match e {
        Expr::Path(segments) => ExprModel::Path(segments.deep_view()),
        Expr::Field { base, member } => ExprModel::Field {
            base: Box::new(expr_model(*base)),
            member: member@,
        },
        Expr::Assign { target, value } => ExprModel::Assign {
            target: Box::new(expr_model(*target)),
            value: Box::new(expr_model(*value)),
        },
        Expr::Call { callee, args } => ExprModel::Call {
            callee: Box::new(expr_model(*callee)),
            args: Seq::new(
                args.len() as nat,
                |i: int|
                    if 0 <= i < args.len() {
                        expr_model(args[i])
                    } else {
                        arbitrary()
                    },
            ),
        },
        Expr::MethodCall { receiver, method, args } => ExprModel::MethodCall {
            receiver: Box::new(expr_model(*receiver)),
            method: method@,
            args: Seq::new(
                args.len() as nat,
                |i: int|
                    if 0 <= i < args.len() {
                        expr_model(args[i])
                    } else {
                        arbitrary()
                    },
            ),
        },
        Expr::Other(parts) => ExprModel::Other(
            Seq::new(
                parts.len() as nat,
                |i: int|
                    if 0 <= i < parts.len() {
                        expr_model(parts[i])
                    } else {
                        arbitrary()
                    },
            ),
        ),
    }
}

impl View for Expr {
    type V = ExprModel;

    open spec fn view(&self) -> ExprModel {
        expr_model(*self)
    }
}

impl DeepView for Expr {
    type V = ExprModel;

    open spec fn deep_view(&self) -> ExprModel {
        expr_model(*self)
    }
}

/// A declaration or other item of the source.
///
/// `scope` is the kind of scope the item opens, or `None` for an item that
/// opens none (a constant, a type alias, a trait, ...). `name` is the declared
/// identifier; for an impl block it is the text of the implementing type.
/// `params` is the text of a function's parameter list. `members` holds the
/// annotations attached to the item or found inside it, and the items nested in
/// it, in source order. `body` holds the expressions of a function's body, and
/// is `None` where the item has no body.
#[derive(Debug, PartialEq, Eq)]
pub struct Item {
    pub scope: Option<ScopeKind>,
    pub name: String,
    pub params: String,
    pub members: Vec<Member>,
    pub body: Option<Vec<Expr>>,
}

/// What an item or a file holds: an annotation or a nested item.
#[derive(Debug, PartialEq, Eq)]
pub enum Member {
    Annotation(Annotation),
    Item(Item),
}

/// Model of an [`Item`].
pub struct ItemModel {
    pub scope: Option<ScopeKind>,
    pub name: Seq<char>,
    pub params: Seq<char>,
    pub members: Seq<MemberModel>,
    pub body: Option<Seq<ExprModel>>,
}

/// Model of a [`Member`].
pub enum MemberModel {
    Annotation(AnnotationModel),
    Item(ItemModel),
}

/// The model of an item: its texts as sequences of characters, and the models
/// of its members and of its body, element by element.
pub open spec fn item_model(item: Item) -> ItemModel
    decreases item,
{
    ItemModel {
        scope: item.scope,
        name: item.name@,
        params: item.params@,
        members: Seq::new(
            item.members.len() as nat,
            |i: int|
                if 0 <= i < item.members.len() {
                    member_model(item.members[i])
                } else {
                    arbitrary()
                },
        ),
        body: match item.body {
            Some(exprs) => Some(exprs.deep_view()),
            None => None,
        },
    }
}

/// The model of a member.
pub open spec fn member_model(member: Member) -> MemberModel
    decreases member,
{
    match member {
        Member::Annotation(a) => MemberModel::Annotation(a@),
        Member::Item(item) => MemberModel::Item(item_model(item)),
    }
}

impl View for Item {
    type V = ItemModel;

    open spec fn view(&self) -> ItemModel {
        item_model(*self)
    }
}

impl DeepView for Item {
    type V = ItemModel;

    open spec fn deep_view(&self) -> ItemModel {
        item_model(*self)
    }
}

impl View for Member {
    type V = MemberModel;

    open spec fn view(&self) -> MemberModel {
        member_model(*self)
    }
}

impl DeepView for Member {
    type V = MemberModel;

    open spec fn deep_view(&self) -> MemberModel {
        member_model(*self)
    }
}

/// A parsed source file: its top-level annotations and items, in source order.
#[derive(Debug, PartialEq, Eq)]
pub struct SourceFile {
    pub members: Vec<Member>,
}

/// Model of a [`SourceFile`].
pub struct SourceFileModel {
    pub members: Seq<MemberModel>,
}

impl View for SourceFile {
    type V = SourceFileModel;

    open spec fn view(&self) -> SourceFileModel {
        SourceFileModel { members: self.members.deep_view() }
    }
}

/// The members of an item, as models, are the models of its members.
pub proof fn lemma_item_members(item: Item)
    ensures
        item@.members == item.members.deep_view(),
{
    assert(item@.members =~= item.members.deep_view());
}

} // verus!
