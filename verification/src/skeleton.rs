//! Generating the skeleton of a source file.
//!
//! The skeleton mirrors the declarations of a file with their names and their
//! nesting, and nothing else: functions keep their parameter list and get an
//! empty body, structs and enums lose their fields and variants, impl blocks
//! keep their functions, modules keep what is kept at the top level. Items that
//! are neither functions nor containers are left out, and so are all
//! annotations: a skeleton starts without any.

use crate::tree::{
    lemma_item_members, Expr, ExprModel, Item, ItemModel, Member, MemberModel, ScopeKind,
    SourceFile, SourceFileModel,
};
use crate::extractor::{extracted, extracted_onto, ItemMacrosModel};
use crate::walker::{
    file_events, item_events, member_events, members_events, FrameModel, WalkEventModel,
};
use vstd::prelude::*;
use vstd::string::*;

verus! {

/// A function reduced to its signature: its name and parameter list, with an
/// empty body and nothing inside.
pub open spec fn function_stub(item: ItemModel) -> ItemModel {
    ItemModel {
        scope: Some(ScopeKind::Function),
        name: item.name,
        params: item.params,
        members: Seq::empty(),
        body: Some(Seq::empty()),
    }
}

/// A container of the given kind and name that holds `members` and has no
/// parameters and no body.
pub open spec fn container(kind: ScopeKind, name: Seq<char>, members: Seq<MemberModel>) -> ItemModel {
    ItemModel { scope: Some(kind), name, params: Seq::empty(), members, body: None }
}

/// A struct reduced to its name.
pub open spec fn struct_skeleton(item: ItemModel) -> ItemModel {
    container(ScopeKind::Struct, item.name, Seq::empty())
}

/// An enum reduced to its name.
pub open spec fn enum_skeleton(item: ItemModel) -> ItemModel {
    container(ScopeKind::Enum, item.name, Seq::empty())
}

/// What is kept of the members of an impl block: the functions, as stubs, in
/// order.
pub open spec fn impl_members(members: Seq<MemberModel>) -> Seq<MemberModel>
    decreases members.len(),
{
    if members.len() == 0 {
        Seq::empty()
    } else {
        let earlier = impl_members(members.drop_last());
        match members.last() {
            MemberModel::Item(item) => if item.scope == Some(ScopeKind::Function) {
                earlier.push(MemberModel::Item(function_stub(item)))
            } else {
                earlier
            },
            MemberModel::Annotation(_) => earlier,
        }
    }
}

/// An impl block reduced to its target and the stubs of its functions.
pub open spec fn impl_skeleton(item: ItemModel) -> ItemModel {
    container(ScopeKind::Impl, item.name, impl_members(item.members))
}

/// The skeleton of one item at the top level of a file or in a module, or
/// `None` for an item that the skeleton leaves out.
pub open spec fn item_skeleton(item: ItemModel) -> Option<ItemModel>
    decreases item,
{
    match item.scope {
        Some(ScopeKind::Function) => Some(function_stub(item)),
        Some(ScopeKind::Struct) => Some(struct_skeleton(item)),
        Some(ScopeKind::Enum) => Some(enum_skeleton(item)),
        Some(ScopeKind::Impl) => Some(impl_skeleton(item)),
        Some(ScopeKind::Module) => Some(
            container(ScopeKind::Module, item.name, module_members(item.members)),
        ),
        Some(ScopeKind::Variant) => None,
        None => None,
    }
}

/// What is kept of the members of a module or of a file: the skeletons of its
/// functions, structs, enums, impl blocks and modules, in order.
pub open spec fn module_members(members: Seq<MemberModel>) -> Seq<MemberModel>
    decreases members,
{
    if members.len() == 0 {
        Seq::empty()
    } else {
        let earlier = module_members(members.drop_last());
        match members.last() {
            MemberModel::Item(item) => match item_skeleton(item) {
                Some(kept) => earlier.push(MemberModel::Item(kept)),
                None => earlier,
            },
            MemberModel::Annotation(_) => earlier,
        }
    }
}

/// A module reduced to its name and the skeletons of its items.
pub open spec fn mod_skeleton(item: ItemModel) -> ItemModel {
    container(ScopeKind::Module, item.name, module_members(item.members))
}

/// The skeleton of a file.
pub open spec fn file_skeleton(file: SourceFileModel) -> SourceFileModel {
    SourceFileModel { members: module_members(file.members) }
}

/// Builds an item from its parts and states its model.
fn make_item(
    scope: ScopeKind,
    name: String,
    params: String,
    members: Vec<Member>,
    body: Option<Vec<Expr>>,
) -> (item: Item)
    ensures
        item@ == (ItemModel {
            scope: Some(scope),
            name: name@,
            params: params@,
            members: members.deep_view(),
            body: match body {
                Some(exprs) => Some(exprs.deep_view()),
                None => None,
            },
        }),
{
    let item = Item { scope: Some(scope), name, params, members, body };
    proof {
        lemma_item_members(item);
    }
    item
}

/// The stub of a function: `fn name(params) {}`.
pub fn extract_function_skeleton(func: &Item) -> (stub: Item)
    ensures
        stub@ == function_stub(func@),
{
    let members: Vec<Member> = Vec::new();
    let body: Vec<Expr> = Vec::new();
    proof {
        assert(members.deep_view() =~= Seq::<MemberModel>::empty());
        assert(body.deep_view() =~= Seq::<ExprModel>::empty());
    }
    make_item(ScopeKind::Function, func.name.clone(), func.params.clone(), members, Some(body))
}

/// The skeleton of a struct: its name, without fields.
pub fn extract_struct_skeleton(struct_item: &Item) -> (skeleton: Item)
    ensures
        skeleton@ == struct_skeleton(struct_item@),
{
    let members: Vec<Member> = Vec::new();
    proof {
        assert(members.deep_view() =~= Seq::<MemberModel>::empty());
    }
    make_item(ScopeKind::Struct, struct_item.name.clone(), String::new(), members, None)
}

/// The skeleton of an enum: its name, without variants.
pub fn extract_enum_skeleton(enum_item: &Item) -> (skeleton: Item)
    ensures
        skeleton@ == enum_skeleton(enum_item@),
{
    let members: Vec<Member> = Vec::new();
    proof {
        assert(members.deep_view() =~= Seq::<MemberModel>::empty());
    }
    make_item(ScopeKind::Enum, enum_item.name.clone(), String::new(), members, None)
}

/// The skeleton of an impl block: its target and the stubs of its functions.
/// Whatever else the block holds is left out.
pub fn extract_impl_skeleton(impl_block: &Item) -> (skeleton: Item)
    ensures
        skeleton@ == impl_skeleton(impl_block@),
{
    let mut impl_items: Vec<Member> = Vec::new();
    let mut i: usize = 0;
    proof {
        lemma_item_members(*impl_block);
        assert(impl_block.members.deep_view().take(0) =~= Seq::<MemberModel>::empty());
        assert(impl_items.deep_view() =~= Seq::<MemberModel>::empty());
    }
    while i < impl_block.members.len()
        invariant
            i <= impl_block.members.len(),
            impl_items.deep_view() == impl_members(impl_block.members.deep_view().take(i as int)),
        decreases impl_block.members.len() - i,
    {
        let ghost kept = impl_items.deep_view();
        proof {
            let next = impl_block.members.deep_view().take(i + 1);
            assert(next.drop_last() =~= impl_block.members.deep_view().take(i as int));
            assert(next.last() == impl_block.members[i as int]@);
        }
        match &impl_block.members[i] {
            Member::Item(item) => {
                if is_scope(item, ScopeKind::Function) {
                    let stub = extract_function_skeleton(item);
                    impl_items.push(Member::Item(stub));
                    proof {
                        assert(impl_items.deep_view() =~= kept.push(
                            MemberModel::Item(function_stub(item@)),
                        ));
                    }
                }
            },
            Member::Annotation(_) => {},
        }
        i += 1;
    }
    proof {
        assert(impl_block.members.deep_view().take(impl_block.members.len() as int)
            =~= impl_block.members.deep_view());
    }
    make_item(ScopeKind::Impl, impl_block.name.clone(), String::new(), impl_items, None)
}

/// Whether an item opens a scope of the given kind.
pub fn is_scope(item: &Item, kind: ScopeKind) -> (is: bool)
    ensures
        is == (item@.scope == Some(kind)),
{
    match item.scope {
        Some(scope) => scope == kind,
        None => false,
    }
}

/// The skeletons of the members of a module or of a file.
pub fn extract_members_skeleton(members: &Vec<Member>) -> (kept: Vec<Member>)
    ensures
        kept.deep_view() == module_members(members.deep_view()),
    decreases members,
{
    let mut kept: Vec<Member> = Vec::new();
    let mut i: usize = 0;
    proof {
        assert(members.deep_view().take(0) =~= Seq::<MemberModel>::empty());
        assert(kept.deep_view() =~= Seq::<MemberModel>::empty());
    }
    while i < members.len()
        invariant
            i <= members.len(),
            kept.deep_view() == module_members(members.deep_view().take(i as int)),
        decreases members.len() - i,
    {
        let ghost before = kept.deep_view();
        proof {
            let next = members.deep_view().take(i + 1);
            assert(next.drop_last() =~= members.deep_view().take(i as int));
            assert(next.last() == members[i as int]@);
        }
        match &members[i] {
            Member::Item(item) => {
                match extract_item_skeleton(item) {
                    Some(skeleton) => {
                        kept.push(Member::Item(skeleton));
                        proof {
                            assert(kept.deep_view() =~= before.push(
                                MemberModel::Item(skeleton@),
                            ));
                        }
                    },
                    None => {},
                }
            },
            Member::Annotation(_) => {},
        }
        i += 1;
    }
    proof {
        assert(members.deep_view().take(members.len() as int) =~= members.deep_view());
    }
    kept
}

/// The skeleton of one item of a module or of a file, or `None` where the
/// skeleton leaves the item out.
pub fn extract_item_skeleton(item: &Item) -> (skeleton: Option<Item>)
    ensures
        match skeleton {
            Some(kept) => item_skeleton(item@) == Some(kept@),
            None => item_skeleton(item@) is None,
        },
    decreases item,
{
    match item.scope {
        Some(ScopeKind::Function) => Some(extract_function_skeleton(item)),
        Some(ScopeKind::Struct) => Some(extract_struct_skeleton(item)),
        Some(ScopeKind::Enum) => Some(extract_enum_skeleton(item)),
        Some(ScopeKind::Impl) => Some(extract_impl_skeleton(item)),
        Some(ScopeKind::Module) => Some(extract_mod_skeleton(item)),
        Some(ScopeKind::Variant) => None,
        None => None,
    }
}

/// The skeleton of a module: its name and the skeletons of its items, nested
/// modules included, to any depth.
pub fn extract_mod_skeleton(module: &Item) -> (skeleton: Item)
    ensures
        skeleton@ == mod_skeleton(module@),
    decreases module, 0nat,
{
    proof {
        lemma_item_members(*module);
    }
    let mod_items = extract_members_skeleton(&module.members);
    make_item(ScopeKind::Module, module.name.clone(), String::new(), mod_items, None)
}

/// The skeleton tree of a file. It is its own skeleton, and it carries no
/// annotation.
pub fn generate_skeleton(file: &SourceFile) -> (skeleton: SourceFile)
    ensures
        skeleton@ == file_skeleton(file@),
        file_skeleton(skeleton@) == skeleton@,
        members_bare(skeleton@.members),
{
    proof {
        lemma_skeleton_idempotent(file@);
        lemma_skeleton_bare(file@);
    }
    SourceFile { members: extract_members_skeleton(&file.members) }
}

/// The stubs among the members of an impl block are kept as they are.
proof fn lemma_impl_members_idempotent(members: Seq<MemberModel>)
    ensures
        impl_members(impl_members(members)) == impl_members(members),
    decreases members.len(),
{
    if members.len() > 0 {
        let earlier = impl_members(members.drop_last());
        lemma_impl_members_idempotent(members.drop_last());
        match members.last() {
            MemberModel::Item(item) => {
                if item.scope == Some(ScopeKind::Function) {
                    let stub = MemberModel::Item(function_stub(item));
                    assert(earlier.push(stub).drop_last() =~= earlier);
                    assert(function_stub(function_stub(item)) == function_stub(item));
                }
            },
            MemberModel::Annotation(_) => {},
        }
    }
}

/// A skeleton is its own skeleton, item by item.
proof fn lemma_item_skeleton_idempotent(item: ItemModel)
    ensures
        item_skeleton(item) matches Some(kept) ==> item_skeleton(kept) == Some(kept),
    decreases item,
{
    match item.scope {
        Some(ScopeKind::Impl) => {
            lemma_impl_members_idempotent(item.members);
        },
        Some(ScopeKind::Module) => {
            lemma_module_members_idempotent(item.members);
        },
        _ => {},
    }
}

proof fn lemma_module_members_idempotent(members: Seq<MemberModel>)
    ensures
        module_members(module_members(members)) == module_members(members),
    decreases members,
{
    if members.len() > 0 {
        let earlier = module_members(members.drop_last());
        lemma_module_members_idempotent(members.drop_last());
        match members.last() {
            MemberModel::Item(item) => {
                lemma_item_skeleton_idempotent(item);
                match item_skeleton(item) {
                    Some(kept) => {
                        assert(earlier.push(MemberModel::Item(kept)).drop_last() =~= earlier);
                    },
                    None => {},
                }
            },
            MemberModel::Annotation(_) => {},
        }
    }
}

/// Generating the skeleton of a skeleton changes nothing: the same
/// declarations, names and nesting come out.
pub proof fn lemma_skeleton_idempotent(file: SourceFileModel)
    ensures
        file_skeleton(file_skeleton(file)) == file_skeleton(file),
{
    lemma_module_members_idempotent(file.members);
}

/// No annotation is among the members, at any depth.
pub open spec fn members_bare(members: Seq<MemberModel>) -> bool
    decreases members,
{
    forall|i: int|
        0 <= i < members.len() ==> match #[trigger] members[i] {
            MemberModel::Item(item) => members_bare(item.members),
            MemberModel::Annotation(_) => false,
        }
}

proof fn lemma_impl_members_bare(members: Seq<MemberModel>)
    ensures
        members_bare(impl_members(members)),
    decreases members.len(),
{
    if members.len() > 0 {
        lemma_impl_members_bare(members.drop_last());
        assert(members_bare(Seq::<MemberModel>::empty()));
    }
}

proof fn lemma_module_members_bare(members: Seq<MemberModel>)
    ensures
        members_bare(module_members(members)),
    decreases members,
{
    if members.len() > 0 {
        let earlier = module_members(members.drop_last());
        lemma_module_members_bare(members.drop_last());
        match members.last() {
            MemberModel::Item(item) => {
                assert(members_bare(Seq::<MemberModel>::empty()));
                match item.scope {
                    Some(ScopeKind::Impl) => {
                        lemma_impl_members_bare(item.members);
                    },
                    Some(ScopeKind::Module) => {
                        lemma_module_members_bare(item.members);
                    },
                    _ => {},
                }
                match item_skeleton(item) {
                    Some(kept) => {
                        let all = earlier.push(MemberModel::Item(kept));
                        assert(members_bare(kept.members));
                        assert forall|i: int| 0 <= i < all.len() implies match #[trigger] all[i] {
                            MemberModel::Item(inner) => members_bare(inner.members),
                            MemberModel::Annotation(_) => false,
                        } by {
                            if i < earlier.len() {
                                assert(all[i] == earlier[i]);
                            }
                        }
                    },
                    None => {},
                }
            },
            MemberModel::Annotation(_) => {},
        }
    }
}

/// A generated skeleton carries no annotation.
pub proof fn lemma_skeleton_bare(file: SourceFileModel)
    ensures
        members_bare(file_skeleton(file).members),
{
    lemma_module_members_bare(file.members);
}

/// No event reports an annotation.
pub open spec fn without_annotations(events: Seq<WalkEventModel>) -> bool {
    forall|i: int| 0 <= i < events.len() ==> !((#[trigger] events[i]) is Annotation)
}

proof fn lemma_bare_item_events(item: ItemModel, ctx: Seq<FrameModel>)
    requires
        members_bare(item.members),
    ensures
        without_annotations(item_events(item, ctx)),
    decreases item, 0nat,
{
    match item.scope {
        Some(kind) => {
            let frame = FrameModel { kind, name: item.name };
            lemma_bare_members_events(item.members, ctx.push(frame));
        },
        None => {
            lemma_bare_members_events(item.members, ctx);
        },
    }
}

proof fn lemma_bare_members_events(members: Seq<MemberModel>, ctx: Seq<FrameModel>)
    requires
        members_bare(members),
    ensures
        without_annotations(members_events(members, ctx)),
    decreases members, 1nat,
{
    if members.len() > 0 {
        let earlier = members.drop_last();
        assert forall|i: int| 0 <= i < earlier.len() implies match #[trigger] earlier[i] {
            MemberModel::Item(item) => members_bare(item.members),
            MemberModel::Annotation(_) => false,
        } by {
            assert(earlier[i] == members[i]);
        }
        lemma_bare_members_events(earlier, ctx);
        assert(members[members.len() - 1] == members.last());
        let first = members_events(earlier, ctx);
        let last = member_events(members.last(), ctx);
        match members.last() {
            MemberModel::Item(item) => {
                lemma_bare_item_events(item, ctx);
            },
            MemberModel::Annotation(_) => {},
        }
        assert forall|i: int| 0 <= i < (first + last).len() implies !((#[trigger] (first
            + last)[i]) is Annotation) by {
            if i < first.len() {
                assert((first + last)[i] == first[i]);
            } else {
                assert((first + last)[i] == last[i - first.len()]);
            }
        }
    }
}

/// Events that report no annotation leave an annotation map as it is.
pub proof fn lemma_nothing_to_extract(map: Seq<ItemMacrosModel>, events: Seq<WalkEventModel>)
    requires
        without_annotations(events),
    ensures
        extracted_onto(map, events) == map,
    decreases events.len(),
{
    if events.len() > 0 {
        let earlier = events.drop_last();
        assert forall|i: int| 0 <= i < earlier.len() implies !((#[trigger] earlier[i])
            is Annotation) by {
            assert(earlier[i] == events[i]);
        }
        lemma_nothing_to_extract(map, earlier);
        assert(events[events.len() - 1] == events.last());
    }
}

/// The annotation map of a generated skeleton is empty: annotations come from
/// the maintainer, never from the generator.
pub proof fn lemma_skeleton_unannotated(file: SourceFileModel)
    ensures
        extracted(file_events(file_skeleton(file))) == Seq::<ItemMacrosModel>::empty(),
{
    lemma_skeleton_bare(file);
    lemma_bare_members_events(file_skeleton(file).members, Seq::empty());
    lemma_nothing_to_extract(Seq::empty(), file_events(file_skeleton(file)));
}

/// The source text of one item of a skeleton. Functions are written as
/// `fn name(params) {}`, structs and enums as public items with empty braces,
/// impl blocks and modules with their items inside. Other items have no text.
pub open spec fn item_source(item: ItemModel) -> Seq<char>
    decreases item,
{
    match item.scope {
        Some(ScopeKind::Function) => "fn "@ + item.name + "("@ + item.params + ") {}\n"@,
        Some(ScopeKind::Struct) => "pub struct "@ + item.name + " {}\n"@,
        Some(ScopeKind::Enum) => "pub enum "@ + item.name + " {}\n"@,
        Some(ScopeKind::Impl) => "impl "@ + item.name + " {\n"@ + members_source(item.members)
            + "}\n"@,
        Some(ScopeKind::Module) => "mod "@ + item.name + " {\n"@ + members_source(item.members)
            + "}\n"@,
        Some(ScopeKind::Variant) => Seq::empty(),
        None => Seq::empty(),
    }
}

/// The source text of the items among `members`, in order. Annotations have no
/// text.
pub open spec fn members_source(members: Seq<MemberModel>) -> Seq<char>
    decreases members,
{
    if members.len() == 0 {
        Seq::empty()
    } else {
        members_source(members.drop_last()) + match members.last() {
            MemberModel::Item(item) => item_source(item),
            MemberModel::Annotation(_) => Seq::empty(),
        }
    }
}

/// Adds the source text of the items among `members` to `text`.
fn write_members(text: &mut String, members: &Vec<Member>)
    ensures
        final(text)@ == old(text)@ + members_source(members.deep_view()),
    decreases members,
{
    let ghost start = text@;
    let mut i: usize = 0;
    proof {
        assert(members.deep_view().take(0) =~= Seq::<MemberModel>::empty());
        assert(start + Seq::<char>::empty() =~= start);
    }
    while i < members.len()
        invariant
            i <= members.len(),
            text@ == start + members_source(members.deep_view().take(i as int)),
        decreases members.len() - i,
    {
        let ghost seen = members.deep_view().take(i as int);
        let ghost next = members.deep_view().take(i + 1);
        proof {
            assert(next.drop_last() =~= seen);
            assert(next.last() == members[i as int]@);
        }
        match &members[i] {
            Member::Item(item) => {
                write_item(text, item);
                proof {
                    assert(text@ =~= start + (members_source(seen) + item_source(item@)));
                }
            },
            Member::Annotation(_) => {
                proof {
                    assert(text@ =~= start + (members_source(seen) + Seq::<char>::empty()));
                }
            },
        }
        i += 1;
    }
    proof {
        assert(members.deep_view().take(members.len() as int) =~= members.deep_view());
    }
}

/// Adds the source text of one item to `text`.
fn write_item(text: &mut String, item: &Item)
    ensures
        final(text)@ == old(text)@ + item_source(item@),
    decreases item,
{
    let ghost start = text@;
    proof {
        lemma_item_members(*item);
    }
    match item.scope {
        Some(ScopeKind::Function) => {
            text.append("fn ");
            text.append(item.name.as_str());
            text.append("(");
            text.append(item.params.as_str());
            text.append(") {}\n");
            proof {
                assert(text@ =~= start + item_source(item@));
            }
        },
        Some(ScopeKind::Struct) => {
            text.append("pub struct ");
            text.append(item.name.as_str());
            text.append(" {}\n");
            proof {
                assert(text@ =~= start + item_source(item@));
            }
        },
        Some(ScopeKind::Enum) => {
            text.append("pub enum ");
            text.append(item.name.as_str());
            text.append(" {}\n");
            proof {
                assert(text@ =~= start + item_source(item@));
            }
        },
        Some(ScopeKind::Impl) => {
            text.append("impl ");
            text.append(item.name.as_str());
            text.append(" {\n");
            write_members(text, &item.members);
            text.append("}\n");
            proof {
                assert(text@ =~= start + item_source(item@));
            }
        },
        Some(ScopeKind::Module) => {
            text.append("mod ");
            text.append(item.name.as_str());
            text.append(" {\n");
            write_members(text, &item.members);
            text.append("}\n");
            proof {
                assert(text@ =~= start + item_source(item@));
            }
        },
        Some(ScopeKind::Variant) => {
            proof {
                assert(text@ =~= start + item_source(item@));
            }
        },
        None => {
            proof {
                assert(text@ =~= start + item_source(item@));
            }
        },
    }
}

/// Renders a skeleton tree as source text, item by item, not yet formatted.
pub fn render_skeleton(skeleton: &SourceFile) -> (text: String)
    ensures
        text@ == members_source(skeleton@.members),
{
    let mut text = String::new();
    write_members(&mut text, &skeleton.members);
    proof {
        assert(Seq::<char>::empty() + members_source(skeleton@.members) =~= members_source(
            skeleton@.members,
        ));
    }
    text
}

/// The skeleton of a source file as source text: the skeleton tree is
/// generated and rendered. The text is ready to be formatted and written out.
pub fn create_skeleton(file: &SourceFile) -> (text: String)
    ensures
        text@ == members_source(file_skeleton(file@).members),
{
    let skeleton = generate_skeleton(file);
    render_skeleton(&skeleton)
}

} // verus!
