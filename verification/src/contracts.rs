//! Checking an implementation against the contracts of its skeleton.
//!
//! Every annotation on a function of the skeleton is read as a contract
//! clause: `mutates(field)` asks that the function assigns to a field of that
//! name, `calls(function)` that it calls a function of that name. The check is
//! syntactic: it looks at the shape of the body and nothing else, so it says
//! nothing about aliases, about what a macro expands to, or about calls through
//! values.

use crate::extractor::{
    extract_annotations, extracted, ItemMacros, ItemMacrosModel, KindMacrosModel,
};
use crate::skeleton::{
    file_skeleton, function_stub, impl_members, item_skeleton, module_members,
};
use crate::text::to_chars;
use crate::tree::{
    lemma_item_members, Expr, ExprModel, Item, ItemModel, Member, MemberModel, ScopeKind,
    SourceFile, SourceFileModel,
};
use crate::walker::{copy_path, file_events, qualified, qualified_name, Frame, FrameModel};
use vstd::prelude::*;
use vstd::string::*;

verus! {

/// One obligation of a function, read from one annotation.
#[derive(Debug, PartialEq, Eq)]
pub enum Clause {
    /// The function must assign to a field of this name.
    Mutates(String),
    /// The function must call a function of this name.
    Calls(String),
    /// An annotation of another kind, or one whose argument is not a single
    /// identifier. It is kept as written and never checked.
    Unknown { kind: String, raw: String },
}

/// Model of a [`Clause`].
pub enum ClauseModel {
    Mutates(Seq<char>),
    Calls(Seq<char>),
    Unknown { kind: Seq<char>, raw: Seq<char> },
}

impl View for Clause {
    type V = ClauseModel;

    open spec fn view(&self) -> ClauseModel {
        match self {
            Clause::Mutates(field) => ClauseModel::Mutates(field@),
            Clause::Calls(function) => ClauseModel::Calls(function@),
            Clause::Unknown { kind, raw } => ClauseModel::Unknown { kind: kind@, raw: raw@ },
        }
    }
}

/// Whether an identifier may start with `c`: an ASCII letter or an underscore.
pub open spec fn is_identifier_start(c: char) -> bool {
    ('a' <= c && c <= 'z') || ('A' <= c && c <= 'Z') || c == '_'
}

/// Whether an identifier may hold `c`: an ASCII letter, a digit or an
/// underscore.
pub open spec fn is_identifier_char(c: char) -> bool {
    is_identifier_start(c) || ('0' <= c && c <= '9')
}

/// Whether `s` is a single identifier: not empty, made of identifier
/// characters, and not starting with a digit.
pub open spec fn is_identifier(s: Seq<char>) -> bool {
    &&& s.len() > 0
    &&& is_identifier_start(s[0])
    &&& forall|i: int| 0 <= i < s.len() ==> is_identifier_char(#[trigger] s[i])
}

/// The clause that an annotation of `kind` with argument text `arg` states. The
/// kinds `mutates` and `calls` are recognised where the argument is a single
/// identifier; everything else is an unknown clause.
pub open spec fn clause_of(kind: Seq<char>, arg: Seq<char>) -> ClauseModel {
    if kind == "mutates"@ && is_identifier(arg) {
        ClauseModel::Mutates(arg)
    } else if kind == "calls"@ && is_identifier(arg) {
        ClauseModel::Calls(arg)
    } else {
        ClauseModel::Unknown { kind, raw: arg }
    }
}

/// Whether `text` is a single identifier.
pub fn check_identifier(text: &str) -> (is: bool)
    ensures
        is == is_identifier(text@),
{
    let chars = to_chars(text);
    if chars.len() == 0 {
        return false;
    }
    let first = chars[0];
    if !(('a' <= first && first <= 'z') || ('A' <= first && first <= 'Z') || first == '_') {
        return false;
    }
    let mut i: usize = 0;
    while i < chars.len()
        invariant
            i <= chars.len(),
            chars@ == text@,
            forall|j: int| 0 <= j < i ==> is_identifier_char(#[trigger] chars@[j]),
        decreases chars.len() - i,
    {
        let c = chars[i];
        let ok = ('a' <= c && c <= 'z') || ('A' <= c && c <= 'Z') || c == '_' || ('0' <= c && c
            <= '9');
        if !ok {
            assert(!is_identifier_char(text@[i as int]));
            return false;
        }
        i += 1;
    }
    true
}

/// Reads one annotation, given by its kind and its argument text, as a clause.
pub fn parse_clause(kind: &String, arg: &String) -> (clause: Clause)
    ensures
        clause@ == clause_of(kind@, arg@),
{
    let recognised = check_identifier(arg.as_str());
    if recognised && *kind == "mutates".to_owned() {
        Clause::Mutates(arg.clone())
    } else if recognised && *kind == "calls".to_owned() {
        Clause::Calls(arg.clone())
    } else {
        Clause::Unknown { kind: kind.clone(), raw: arg.clone() }
    }
}

/// Whether `e` is a field access that names `field`, on whatever receiver.
pub open spec fn names_field(e: ExprModel, field: Seq<char>) -> bool {
    e matches ExprModel::Field { member, .. } && member == field
}

/// Whether `e` holds, at any depth, an assignment whose left-hand side is a
/// field access that names `field`.
pub open spec fn assigns_field(e: ExprModel, field: Seq<char>) -> bool
    decreases e,
{
    match e {
        ExprModel::Path(_) => false,
        ExprModel::Field { base, .. } => assigns_field(*base, field),
        ExprModel::Assign { target, value } => names_field(*target, field) || assigns_field(
            *target,
            field,
        ) || assigns_field(*value, field),
        ExprModel::Call { callee, args } => assigns_field(*callee, field) || any_assigns_field(
            args,
            field,
        ),
        ExprModel::MethodCall { receiver, args, .. } => assigns_field(*receiver, field)
            || any_assigns_field(args, field),
        ExprModel::Other(parts) => any_assigns_field(parts, field),
    }
}

/// Whether one of the expressions assigns to a field named `field`.
pub open spec fn any_assigns_field(exprs: Seq<ExprModel>, field: Seq<char>) -> bool
    decreases exprs,
{
    exists|i: int| 0 <= i < exprs.len() && assigns_field(#[trigger] exprs[i], field)
}

/// Whether `e` is a path whose last segment is `function`.
pub open spec fn names_function(e: ExprModel, function: Seq<char>) -> bool {
    e matches ExprModel::Path(segments) && segments.len() > 0 && segments.last() == function
}

/// Whether `e` holds, at any depth, a call whose callee is named `function`: a
/// call of a path whose last segment is that name, or a call of a method of
/// that name.
pub open spec fn calls_function(e: ExprModel, function: Seq<char>) -> bool
    decreases e,
{
    match e {
        ExprModel::Path(_) => false,
        ExprModel::Field { base, .. } => calls_function(*base, function),
        ExprModel::Assign { target, value } => calls_function(*target, function)
            || calls_function(*value, function),
        ExprModel::Call { callee, args } => names_function(*callee, function) || calls_function(
            *callee,
            function,
        ) || any_calls_function(args, function),
        ExprModel::MethodCall { receiver, method, args } => method == function || calls_function(
            *receiver,
            function,
        ) || any_calls_function(args, function),
        ExprModel::Other(parts) => any_calls_function(parts, function),
    }
}

/// Whether one of the expressions calls a function named `function`.
pub open spec fn any_calls_function(exprs: Seq<ExprModel>, function: Seq<char>) -> bool
    decreases exprs,
{
    exists|i: int| 0 <= i < exprs.len() && calls_function(#[trigger] exprs[i], function)
}

/// Whether `e` is a field access that names `field`.
fn is_field_named(e: &Expr, field: &String) -> (is: bool)
    ensures
        is == names_field(e@, field@),
{
    match e {
        Expr::Field { base, member } => *member == *field,
        _ => false,
    }
}

/// Whether `e` is a path whose last segment is `function`.
fn is_path_to(e: &Expr, function: &String) -> (is: bool)
    ensures
        is == names_function(e@, function@),
{
    match e {
        Expr::Path(segments) => segments.len() > 0 && segments[segments.len() - 1] == *function,
        _ => false,
    }
}

/// Scans an expression for an assignment to a field named `field`.
pub fn expr_assigns_field(e: &Expr, field: &String) -> (found: bool)
    ensures
        found == assigns_field(e@, field@),
    decreases e,
{
    match e {
        Expr::Path(_) => false,
        Expr::Field { base, member } => expr_assigns_field(base, field),
        Expr::Assign { target, value } => is_field_named(target, field) || expr_assigns_field(
            target,
            field,
        ) || expr_assigns_field(value, field),
        Expr::Call { callee, args } => {
            assert(e@->Call_args =~= args.deep_view());
            expr_assigns_field(callee, field) || body_assigns_field(args, field)
        },
        Expr::MethodCall { receiver, method, args } => {
            assert(e@->MethodCall_args =~= args.deep_view());
            expr_assigns_field(receiver, field) || body_assigns_field(args, field)
        },
        Expr::Other(parts) => {
            assert(e@->Other_0 =~= parts.deep_view());
            body_assigns_field(parts, field)
        },
    }
}

/// Scans expressions, in order, for an assignment to a field named `field`.
pub fn body_assigns_field(exprs: &Vec<Expr>, field: &String) -> (found: bool)
    ensures
        found == any_assigns_field(exprs.deep_view(), field@),
    decreases exprs,
{
    let mut i: usize = 0;
    while i < exprs.len()
        invariant
            i <= exprs.len(),
            forall|j: int| 0 <= j < i ==> !assigns_field(#[trigger] exprs.deep_view()[j], field@),
        decreases exprs.len() - i,
    {
        if expr_assigns_field(&exprs[i], field) {
            assert(assigns_field(exprs.deep_view()[i as int], field@));
            return true;
        }
        i += 1;
    }
    false
}

/// Scans an expression for a call of a function named `function`.
pub fn expr_calls_function(e: &Expr, function: &String) -> (found: bool)
    ensures
        found == calls_function(e@, function@),
    decreases e,
{
    match e {
        Expr::Path(_) => false,
        Expr::Field { base, member } => expr_calls_function(base, function),
        Expr::Assign { target, value } => expr_calls_function(target, function)
            || expr_calls_function(value, function),
        Expr::Call { callee, args } => {
            assert(e@->Call_args =~= args.deep_view());
            is_path_to(callee, function) || expr_calls_function(callee, function)
                || body_calls_function(args, function)
        },
        Expr::MethodCall { receiver, method, args } => {
            assert(e@->MethodCall_args =~= args.deep_view());
            *method == *function || expr_calls_function(receiver, function)
                || body_calls_function(args, function)
        },
        Expr::Other(parts) => {
            assert(e@->Other_0 =~= parts.deep_view());
            body_calls_function(parts, function)
        },
    }
}

/// Scans expressions, in order, for a call of a function named `function`.
pub fn body_calls_function(exprs: &Vec<Expr>, function: &String) -> (found: bool)
    ensures
        found == any_calls_function(exprs.deep_view(), function@),
    decreases exprs,
{
    let mut i: usize = 0;
    while i < exprs.len()
        invariant
            i <= exprs.len(),
            forall|j: int|
                0 <= j < i ==> !calls_function(#[trigger] exprs.deep_view()[j], function@),
        decreases exprs.len() - i,
    {
        if expr_calls_function(&exprs[i], function) {
            assert(calls_function(exprs.deep_view()[i as int], function@));
            return true;
        }
        i += 1;
    }
    false
}

/// How a clause fared against a function.
#[derive(Clone, Copy, Debug, PartialEq, Eq, Structural)]
pub enum Outcome {
    Satisfied,
    Unsatisfied,
    Inconclusive,
}

/// The outcome of checking a clause against the body of a function.
///
/// A `mutates` clause is satisfied where the body assigns to a field of that
/// name and unsatisfied where it does not; without a body to look at it is
/// inconclusive. A `calls` clause is satisfied where the body calls a function
/// of that name, and unsatisfied otherwise. An unknown clause is never
/// decided.
pub open spec fn outcome_of(clause: ClauseModel, body: Option<Seq<ExprModel>>) -> Outcome {
    match clause {
        ClauseModel::Mutates(field) => match body {
            Some(exprs) => if any_assigns_field(exprs, field) {
                Outcome::Satisfied
            } else {
                Outcome::Unsatisfied
            },
            None => Outcome::Inconclusive,
        },
        ClauseModel::Calls(function) => match body {
            Some(exprs) => if any_calls_function(exprs, function) {
                Outcome::Satisfied
            } else {
                Outcome::Unsatisfied
            },
            None => Outcome::Unsatisfied,
        },
        ClauseModel::Unknown { .. } => Outcome::Inconclusive,
    }
}

/// The short reason that goes with an outcome.
pub open spec fn reason_of(clause: ClauseModel, outcome: Outcome) -> Seq<char> {
    match clause {
        ClauseModel::Mutates(field) => match outcome {
            Outcome::Satisfied => "assigns to field "@ + field,
            Outcome::Unsatisfied => "no assignment to field "@ + field,
            Outcome::Inconclusive => "no body to inspect"@,
        },
        ClauseModel::Calls(function) => match outcome {
            Outcome::Satisfied => "calls "@ + function,
            Outcome::Unsatisfied => "no call to "@ + function,
            Outcome::Inconclusive => "no body to inspect"@,
        },
        ClauseModel::Unknown { .. } => "not checked"@,
    }
}

/// Checks a clause against the body of a function.
pub fn check_clause(clause: &Clause, body: &Option<Vec<Expr>>) -> (outcome: Outcome)
    ensures
        outcome == outcome_of(
            clause@,
            match body {
                Some(exprs) => Some(exprs.deep_view()),
                None => None,
            },
        ),
{
    match clause {
        Clause::Mutates(field) => match body {
            Some(exprs) => if body_assigns_field(exprs, field) {
                Outcome::Satisfied
            } else {
                Outcome::Unsatisfied
            },
            None => Outcome::Inconclusive,
        },
        Clause::Calls(function) => match body {
            Some(exprs) => if body_calls_function(exprs, function) {
                Outcome::Satisfied
            } else {
                Outcome::Unsatisfied
            },
            None => Outcome::Unsatisfied,
        },
        Clause::Unknown { .. } => Outcome::Inconclusive,
    }
}

/// Writes the reason that goes with an outcome.
pub fn explain(clause: &Clause, outcome: Outcome) -> (reason: String)
    ensures
        reason@ == reason_of(clause@, outcome),
{
    match clause {
        Clause::Mutates(field) => match outcome {
            Outcome::Satisfied => {
                let mut reason = "assigns to field ".to_owned();
                reason.append(field.as_str());
                reason
            },
            Outcome::Unsatisfied => {
                let mut reason = "no assignment to field ".to_owned();
                reason.append(field.as_str());
                reason
            },
            Outcome::Inconclusive => "no body to inspect".to_owned(),
        },
        Clause::Calls(function) => match outcome {
            Outcome::Satisfied => {
                let mut reason = "calls ".to_owned();
                reason.append(function.as_str());
                reason
            },
            Outcome::Unsatisfied => {
                let mut reason = "no call to ".to_owned();
                reason.append(function.as_str());
                reason
            },
            Outcome::Inconclusive => "no body to inspect".to_owned(),
        },
        Clause::Unknown { .. } => "not checked".to_owned(),
    }
}

/// What the check reports.
#[derive(Debug, PartialEq, Eq)]
pub enum Finding {
    /// A recognised clause of a function was checked.
    Verdict { function: Vec<Frame>, clause: Clause, outcome: Outcome, reason: String },
    /// An annotation of a function is no recognised clause and was not checked.
    Skipped { function: Vec<Frame>, kind: String, raw: String },
    /// A function of the skeleton has no counterpart in the implementation.
    Missing { function: Vec<Frame> },
}

/// Model of a [`Finding`].
pub enum FindingModel {
    Verdict { function: Seq<FrameModel>, clause: ClauseModel, outcome: Outcome, reason: Seq<char> },
    Skipped { function: Seq<FrameModel>, kind: Seq<char>, raw: Seq<char> },
    Missing { function: Seq<FrameModel> },
}

impl View for Finding {
    type V = FindingModel;

    open spec fn view(&self) -> FindingModel {
        match self {
            Finding::Verdict { function, clause, outcome, reason } => FindingModel::Verdict {
                function: function.deep_view(),
                clause: clause@,
                outcome: *outcome,
                reason: reason@,
            },
            Finding::Skipped { function, kind, raw } => FindingModel::Skipped {
                function: function.deep_view(),
                kind: kind@,
                raw: raw@,
            },
            Finding::Missing { function } => FindingModel::Missing {
                function: function.deep_view(),
            },
        }
    }
}

impl DeepView for Finding {
    type V = FindingModel;

    open spec fn deep_view(&self) -> FindingModel {
        self@
    }
}

/// What one annotation of `kind` with argument text `arg` on `function` gives:
/// a verdict where it states a recognised clause, and a note that it was
/// skipped where it does not.
pub open spec fn finding_of(
    function: Seq<FrameModel>,
    body: Option<Seq<ExprModel>>,
    kind: Seq<char>,
    arg: Seq<char>,
) -> FindingModel {
    match clause_of(kind, arg) {
        ClauseModel::Unknown { kind, raw } => FindingModel::Skipped { function, kind, raw },
        clause => FindingModel::Verdict {
            function,
            clause,
            outcome: outcome_of(clause, body),
            reason: reason_of(clause, outcome_of(clause, body)),
        },
    }
}

/// Checks one annotation of a function.
pub fn check_annotation(
    function: &Vec<Frame>,
    body: &Option<Vec<Expr>>,
    kind: &String,
    arg: &String,
) -> (finding: Finding)
    ensures
        finding@ == finding_of(
            function.deep_view(),
            match body {
                Some(exprs) => Some(exprs.deep_view()),
                None => None,
            },
            kind@,
            arg@,
        ),
{
    let clause = parse_clause(kind, arg);
    match clause {
        Clause::Unknown { kind, raw } => Finding::Skipped { function: copy_path(function), kind, raw },
        _ => {
            let outcome = check_clause(&clause, body);
            let reason = explain(&clause, outcome);
            Finding::Verdict { function: copy_path(function), clause, outcome, reason }
        },
    }
}

/// The first declaration, in source order, that is reached from `members` by
/// the path `path`: a declaration whose frames, from here on, are those of
/// `path`. Items that open no scope are looked through.
pub open spec fn declared_in(members: Seq<MemberModel>, path: Seq<FrameModel>) -> Option<ItemModel>
    decreases members,
{
    if members.len() == 0 {
        None
    } else {
        match declared_in(members.drop_last(), path) {
            Some(found) => Some(found),
            None => match members.last() {
                MemberModel::Item(item) => declared_at(item, path),
                MemberModel::Annotation(_) => None,
            },
        }
    }
}

/// The first declaration that is reached from `item` by the path `path`: the
/// item itself where the path is its frame, or a declaration inside it where
/// the path goes on.
pub open spec fn declared_at(item: ItemModel, path: Seq<FrameModel>) -> Option<ItemModel>
    decreases item,
{
    match item.scope {
        Some(kind) => if path.len() > 0 && path[0] == (FrameModel { kind, name: item.name }) {
            if path.len() == 1 {
                Some(item)
            } else {
                declared_in(item.members, path.drop_first())
            }
        } else {
            None
        },
        None => declared_in(item.members, path),
    }
}

/// What is found among the first members is found among all of them.
proof fn lemma_declared_prefix(members: Seq<MemberModel>, path: Seq<FrameModel>, n: int)
    requires
        0 <= n <= members.len(),
        declared_in(members.take(n), path) is Some,
    ensures
        declared_in(members, path) == declared_in(members.take(n), path),
    decreases members.len() - n,
{
    if n < members.len() {
        let next = members.take(n + 1);
        assert(next.drop_last() =~= members.take(n));
        lemma_declared_prefix(members, path, n + 1);
    } else {
        assert(members.take(n) =~= members);
    }
}

/// Looks among `members` for the declaration that `path` reaches from its
/// frame number `depth` on.
fn find_in_members<'a>(members: &'a Vec<Member>, path: &Vec<Frame>, depth: usize) -> (found:
    Option<&'a Item>)
    requires
        depth < path.len(),
    ensures
        match found {
            Some(item) => declared_in(members.deep_view(), path.deep_view().skip(depth as int))
                == Some(item@),
            None => declared_in(members.deep_view(), path.deep_view().skip(depth as int)) is None,
        },
    decreases members,
{
    let ghost rest = path.deep_view().skip(depth as int);
    let mut i: usize = 0;
    proof {
        assert(members.deep_view().take(0) =~= Seq::<MemberModel>::empty());
    }
    while i < members.len()
        invariant
            i <= members.len(),
            depth < path.len(),
            rest == path.deep_view().skip(depth as int),
            declared_in(members.deep_view().take(i as int), rest) is None,
        decreases members.len() - i,
    {
        proof {
            let next = members.deep_view().take(i + 1);
            assert(next.drop_last() =~= members.deep_view().take(i as int));
            assert(next.last() == members[i as int]@);
        }
        match &members[i] {
            Member::Item(item) => {
                match find_at_item(item, path, depth) {
                    Some(found) => {
                        proof {
                            lemma_declared_prefix(members.deep_view(), rest, i + 1);
                        }
                        return Some(found);
                    },
                    None => {},
                }
            },
            Member::Annotation(_) => {},
        }
        i += 1;
    }
    proof {
        assert(members.deep_view().take(members.len() as int) =~= members.deep_view());
    }
    None
}

/// Looks at `item` and inside it for the declaration that `path` reaches from
/// its frame number `depth` on.
fn find_at_item<'a>(item: &'a Item, path: &Vec<Frame>, depth: usize) -> (found: Option<&'a Item>)
    requires
        depth < path.len(),
    ensures
        match found {
            Some(inner) => declared_at(item@, path.deep_view().skip(depth as int)) == Some(inner@),
            None => declared_at(item@, path.deep_view().skip(depth as int)) is None,
        },
    decreases item,
{
    let ghost rest = path.deep_view().skip(depth as int);
    proof {
        lemma_item_members(*item);
        assert(rest[0] == path[depth as int]@);
        assert(rest.len() == path.len() - depth);
    }
    match item.scope {
        Some(kind) => {
            if path[depth].kind == kind && path[depth].name == item.name {
                if depth + 1 == path.len() {
                    Some(item)
                } else {
                    proof {
                        assert(rest.drop_first() =~= path.deep_view().skip(depth + 1));
                    }
                    find_in_members(&item.members, path, depth + 1)
                }
            } else {
                None
            }
        },
        None => find_in_members(&item.members, path, depth),
    }
}

/// Finds the first declaration of a file, in source order, whose path is
/// `path`.
pub fn find_declaration<'a>(file: &'a SourceFile, path: &Vec<Frame>) -> (found: Option<&'a Item>)
    ensures
        match found {
            Some(item) => declared_in(file@.members, path.deep_view()) == Some(item@),
            None => declared_in(file@.members, path.deep_view()) is None,
        },
{
    if path.len() == 0 {
        proof {
            lemma_nothing_at_empty_path(file@.members);
            assert(path.deep_view() =~= Seq::<FrameModel>::empty());
        }
        return None;
    }
    proof {
        assert(path.deep_view().skip(0) =~= path.deep_view());
    }
    find_in_members(&file.members, path, 0)
}

/// The empty path reaches no declaration.
proof fn lemma_nothing_at_empty_path(members: Seq<MemberModel>)
    ensures
        declared_in(members, Seq::empty()) is None,
    decreases members,
{
    let nowhere = Seq::<FrameModel>::empty();
    if members.len() > 0 {
        lemma_nothing_at_empty_path(members.drop_last());
        match members.last() {
            MemberModel::Item(item) => {
                if item.scope is None {
                    lemma_nothing_at_empty_path(item.members);
                }
                assert(declared_at(item, nowhere) is None);
            },
            MemberModel::Annotation(_) => {},
        }
        assert(declared_in(members, nowhere) is None);
    }
}

proof fn lemma_impl_members_declared(members: Seq<MemberModel>, path: Seq<FrameModel>)
    requires
        declared_in(impl_members(members), path) is Some,
    ensures
        declared_in(members, path) is Some,
    decreases members.len(),
{
    if members.len() > 0 {
        let earlier = impl_members(members.drop_last());
        match members.last() {
            MemberModel::Item(item) => {
                if item.scope == Some(ScopeKind::Function) {
                    let stub = function_stub(item);
                    let kept = earlier.push(MemberModel::Item(stub));
                    assert(kept.drop_last() =~= earlier);
                    assert(kept.last() == MemberModel::Item(stub));
                    if declared_in(earlier, path) is Some {
                        lemma_impl_members_declared(members.drop_last(), path);
                    } else {
                        assert(declared_at(stub, path) is Some);
                        if path.len() > 1 {
                            assert(declared_in(stub.members, path.drop_first()) is None);
                        }
                        assert(declared_at(item, path) is Some);
                    }
                } else {
                    lemma_impl_members_declared(members.drop_last(), path);
                }
            },
            MemberModel::Annotation(_) => {
                lemma_impl_members_declared(members.drop_last(), path);
            },
        }
    }
}

proof fn lemma_module_members_declared(members: Seq<MemberModel>, path: Seq<FrameModel>)
    requires
        declared_in(module_members(members), path) is Some,
    ensures
        declared_in(members, path) is Some,
    decreases members,
{
    if members.len() > 0 {
        let earlier = module_members(members.drop_last());
        match members.last() {
            MemberModel::Item(item) => {
                match item_skeleton(item) {
                    Some(skeleton) => {
                        let kept = earlier.push(MemberModel::Item(skeleton));
                        assert(kept.drop_last() =~= earlier);
                        assert(kept.last() == MemberModel::Item(skeleton));
                        if declared_in(earlier, path) is Some {
                            lemma_module_members_declared(members.drop_last(), path);
                        } else {
                            assert(declared_at(skeleton, path) is Some);
                            if path.len() > 1 {
                                let rest = path.drop_first();
                                assert(declared_in(Seq::<MemberModel>::empty(), rest) is None);
                                match item.scope {
                                    Some(ScopeKind::Impl) => {
                                        lemma_impl_members_declared(item.members, rest);
                                    },
                                    Some(ScopeKind::Module) => {
                                        lemma_module_members_declared(item.members, rest);
                                    },
                                    _ => {},
                                }
                            }
                            assert(declared_at(item, path) is Some);
                        }
                    },
                    None => {
                        lemma_module_members_declared(members.drop_last(), path);
                    },
                }
            },
            MemberModel::Annotation(_) => {
                lemma_module_members_declared(members.drop_last(), path);
            },
        }
    }
}

/// A generated skeleton declares nothing that the file it was generated from
/// lacks: whatever path reaches a declaration of the skeleton reaches one of
/// the file.
pub proof fn lemma_skeleton_declares_nothing_new(file: SourceFileModel, path: Seq<FrameModel>)
    requires
        declared_in(file_skeleton(file).members, path) is Some,
    ensures
        declared_in(file.members, path) is Some,
{
    lemma_module_members_declared(file.members, path);
}

/// Whether a path is that of a function: its innermost frame is a function.
pub open spec fn is_function_path(path: Seq<FrameModel>) -> bool {
    path.len() > 0 && path.last().kind == ScopeKind::Function
}

/// The findings for the annotations of one kind on a function, one for each
/// argument text, in order.
pub open spec fn kind_findings(
    function: Seq<FrameModel>,
    body: Option<Seq<ExprModel>>,
    kind: Seq<char>,
    args: Seq<Seq<char>>,
) -> Seq<FindingModel>
    decreases args.len(),
{
    if args.len() == 0 {
        Seq::empty()
    } else {
        kind_findings(function, body, kind, args.drop_last()).push(
            finding_of(function, body, kind, args.last()),
        )
    }
}

/// The findings for all the annotations of a function, kind by kind.
pub open spec fn kinds_findings(
    function: Seq<FrameModel>,
    body: Option<Seq<ExprModel>>,
    kinds: Seq<KindMacrosModel>,
) -> Seq<FindingModel>
    decreases kinds.len(),
{
    if kinds.len() == 0 {
        Seq::empty()
    } else {
        kinds_findings(function, body, kinds.drop_last()) + kind_findings(
            function,
            body,
            kinds.last().kind,
            kinds.last().args,
        )
    }
}

/// The findings for one entry of an annotation map. An entry of a function
/// that the implementation declares gives one finding for each of its
/// annotations; one of a function that the implementation lacks gives the
/// single finding that it is missing; an entry of anything else gives none.
pub open spec fn entry_findings(file: SourceFileModel, entry: ItemMacrosModel) -> Seq<FindingModel> {
    if is_function_path(entry.owner) {
        match declared_in(file.members, entry.owner) {
            Some(function) => kinds_findings(entry.owner, function.body, entry.kinds),
            None => seq![FindingModel::Missing { function: entry.owner }],
        }
    } else {
        Seq::empty()
    }
}

/// The findings of checking a file against an annotation map, entry by entry.
pub open spec fn findings(file: SourceFileModel, map: Seq<ItemMacrosModel>) -> Seq<FindingModel>
    decreases map.len(),
{
    if map.len() == 0 {
        Seq::empty()
    } else {
        findings(file, map.drop_last()) + entry_findings(file, map.last())
    }
}

/// Adds the findings for one entry of an annotation map to `report`.
fn check_entry(file: &SourceFile, entry: &ItemMacros, report: &mut Vec<Finding>)
    ensures
        final(report).deep_view() == old(report).deep_view() + entry_findings(file@, entry@),
{
    let ghost start = report.deep_view();
    let owner = &entry.owner;
    if owner.len() == 0 || owner[owner.len() - 1].kind != ScopeKind::Function {
        proof {
            assert(start + Seq::<FindingModel>::empty() =~= start);
        }
        return ;
    }
    proof {
        assert(owner.deep_view().last() == owner[owner.len() - 1]@);
    }
    let function = match find_declaration(file, owner) {
        Some(function) => function,
        None => {
            let missing = Finding::Missing { function: copy_path(owner) };
            report.push(missing);
            proof {
                assert(report.deep_view() =~= start + seq![missing@]);
            }
            return ;
        },
    };
    let ghost body = function@.body;
    let mut k: usize = 0;
    proof {
        assert(entry.kinds.deep_view().take(0) =~= Seq::<KindMacrosModel>::empty());
        assert(start + Seq::<FindingModel>::empty() =~= start);
    }
    while k < entry.kinds.len()
        invariant
            k <= entry.kinds.len(),
            owner == &entry.owner,
            body == function@.body,
            report.deep_view() == start + kinds_findings(
                owner.deep_view(),
                body,
                entry.kinds.deep_view().take(k as int),
            ),
        decreases entry.kinds.len() - k,
    {
        let ghost seen = entry.kinds.deep_view().take(k as int);
        let ghost before = report.deep_view();
        let kind = &entry.kinds[k];
        proof {
            let next = entry.kinds.deep_view().take(k + 1);
            assert(next.drop_last() =~= seen);
            assert(next.last() == kind@);
            assert(kind.args.deep_view().take(0) =~= Seq::<Seq<char>>::empty());
            assert(before + Seq::<FindingModel>::empty() =~= before);
        }
        let mut a: usize = 0;
        while a < kind.args.len()
            invariant
                a <= kind.args.len(),
                body == function@.body,
                report.deep_view() == before + kind_findings(
                    owner.deep_view(),
                    body,
                    kind.kind@,
                    kind.args.deep_view().take(a as int),
                ),
            decreases kind.args.len() - a,
        {
            let ghost now = report.deep_view();
            proof {
                let next = kind.args.deep_view().take(a + 1);
                assert(next.drop_last() =~= kind.args.deep_view().take(a as int));
                assert(next.last() == kind.args[a as int]@);
            }
            let finding = check_annotation(owner, &function.body, &kind.kind, &kind.args[a]);
            report.push(finding);
            proof {
                assert(report.deep_view() =~= now.push(finding@));
                assert(report.deep_view() =~= before + kind_findings(
                    owner.deep_view(),
                    body,
                    kind.kind@,
                    kind.args.deep_view().take(a + 1),
                ));
            }
            a += 1;
        }
        proof {
            assert(kind.args.deep_view().take(kind.args.len() as int) =~= kind.args.deep_view());
            assert(report.deep_view() =~= start + (kinds_findings(owner.deep_view(), body, seen)
                + kind_findings(owner.deep_view(), body, kind@.kind, kind@.args)));
        }
        k += 1;
    }
    proof {
        assert(entry.kinds.deep_view().take(entry.kinds.len() as int) =~= entry.kinds.deep_view());
    }
}

/// Checks an implementation against an annotation map. Every function of the
/// map that the implementation declares gets one finding for each of its
/// annotations, in the order of the map; every function of the map that the
/// implementation lacks gets the single finding that it is missing.
pub fn verify_contracts(file: &SourceFile, map: &Vec<ItemMacros>) -> (report: Vec<Finding>)
    ensures
        report.deep_view() == findings(file@, map.deep_view()),
{
    let mut report: Vec<Finding> = Vec::new();
    let mut i: usize = 0;
    proof {
        assert(map.deep_view().take(0) =~= Seq::<ItemMacrosModel>::empty());
        assert(report.deep_view() =~= Seq::<FindingModel>::empty());
    }
    while i < map.len()
        invariant
            i <= map.len(),
            report.deep_view() == findings(file@, map.deep_view().take(i as int)),
        decreases map.len() - i,
    {
        proof {
            let next = map.deep_view().take(i + 1);
            assert(next.drop_last() =~= map.deep_view().take(i as int));
            assert(next.last() == map[i as int]@);
        }
        check_entry(file, &map[i], &mut report);
        i += 1;
    }
    proof {
        assert(map.deep_view().take(map.len() as int) =~= map.deep_view());
    }
    report
}

/// Checks an implementation against its skeleton: the annotations of the
/// skeleton are collected, and the implementation is checked against them.
pub fn process_files(source: &SourceFile, skeleton: &SourceFile) -> (report: Vec<Finding>)
    ensures
        report.deep_view() == findings(source@, extracted(file_events(skeleton@))),
{
    let map = extract_annotations(skeleton);
    verify_contracts(source, &map)
}

/// The word for an outcome in a report.
pub open spec fn outcome_word(outcome: Outcome) -> Seq<char> {
    match outcome {
        Outcome::Satisfied => "Satisfied"@,
        Outcome::Unsatisfied => "Unsatisfied"@,
        Outcome::Inconclusive => "Inconclusive"@,
    }
}

/// A clause as text: its kind, and its target in parentheses.
pub open spec fn clause_text(clause: ClauseModel) -> Seq<char> {
    match clause {
        ClauseModel::Mutates(field) => "mutates("@ + field + ")"@,
        ClauseModel::Calls(function) => "calls("@ + function + ")"@,
        ClauseModel::Unknown { kind, raw } => kind + "("@ + raw + ")"@,
    }
}

/// The line of one finding in a report. A verdict names the function, the
/// clause and the outcome, with the reason in parentheses; a skipped
/// annotation is listed as `skipped:` with its kind; a missing function is
/// listed as `declared but missing`.
pub open spec fn finding_line(finding: FindingModel) -> Seq<char> {
    match finding {
        FindingModel::Verdict { function, clause, outcome, reason } => qualified(function) + ": "@
            + clause_text(clause) + ": "@ + outcome_word(outcome) + " ("@ + reason + ")\n"@,
        FindingModel::Skipped { function, kind, raw } => qualified(function) + ": skipped: "@
            + kind + "\n"@,
        FindingModel::Missing { function } => qualified(function) + ": declared but missing\n"@,
    }
}

/// The report of some findings: their lines, in order.
pub open spec fn findings_report(findings: Seq<FindingModel>) -> Seq<char>
    decreases findings.len(),
{
    if findings.len() == 0 {
        Seq::empty()
    } else {
        findings_report(findings.drop_last()) + finding_line(findings.last())
    }
}

/// Adds the line of one finding to a report.
fn write_finding(report: &mut String, finding: &Finding)
    ensures
        final(report)@ == old(report)@ + finding_line(finding@),
{
    let ghost start = report@;
    match finding {
        Finding::Verdict { function, clause, outcome, reason } => {
            report.append(qualified_name(function).as_str());
            report.append(": ");
            match clause {
                Clause::Mutates(field) => {
                    report.append("mutates(");
                    report.append(field.as_str());
                    report.append(")");
                },
                Clause::Calls(function) => {
                    report.append("calls(");
                    report.append(function.as_str());
                    report.append(")");
                },
                Clause::Unknown { kind, raw } => {
                    report.append(kind.as_str());
                    report.append("(");
                    report.append(raw.as_str());
                    report.append(")");
                },
            }
            report.append(": ");
            let word = match outcome {
                Outcome::Satisfied => "Satisfied",
                Outcome::Unsatisfied => "Unsatisfied",
                Outcome::Inconclusive => "Inconclusive",
            };
            report.append(word);
            report.append(" (");
            report.append(reason.as_str());
            report.append(")\n");
            proof {
                assert(report@ =~= start + finding_line(finding@));
            }
        },
        Finding::Skipped { function, kind, raw } => {
            report.append(qualified_name(function).as_str());
            report.append(": skipped: ");
            report.append(kind.as_str());
            report.append("\n");
            proof {
                assert(report@ =~= start + finding_line(finding@));
            }
        },
        Finding::Missing { function } => {
            report.append(qualified_name(function).as_str());
            report.append(": declared but missing\n");
            proof {
                assert(report@ =~= start + finding_line(finding@));
            }
        },
    }
}

/// Renders findings as a report, one line for each.
pub fn render_findings(findings: &Vec<Finding>) -> (report: String)
    ensures
        report@ == findings_report(findings.deep_view()),
{
    let mut report = String::new();
    let mut i: usize = 0;
    proof {
        assert(findings.deep_view().take(0) =~= Seq::<FindingModel>::empty());
    }
    while i < findings.len()
        invariant
            i <= findings.len(),
            report@ == findings_report(findings.deep_view().take(i as int)),
        decreases findings.len() - i,
    {
        proof {
            let next = findings.deep_view().take(i + 1);
            assert(next.drop_last() =~= findings.deep_view().take(i as int));
            assert(next.last() == findings[i as int]@);
        }
        write_finding(&mut report, &findings[i]);
        i += 1;
    }
    proof {
        assert(findings.deep_view().take(findings.len() as int) =~= findings.deep_view());
    }
    report
}

/// Checking the same implementation against the same annotation map gives the
/// same findings, however often it is done.
pub proof fn lemma_findings_determined(
    file: SourceFileModel,
    map: Seq<ItemMacrosModel>,
    first: Seq<FindingModel>,
    second: Seq<FindingModel>,
)
    requires
        first == findings(file, map),
        second == findings(file, map),
    ensures
        first == second,
{
}

} // verus!
