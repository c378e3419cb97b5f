//! Walking a source tree while tracking the enclosing declarations.
//!
//! The walk is depth first and in source order. It reports an `Enter` event
//! when it enters a declaration that opens a scope, a `Leave` event when it
//! leaves it, and an `Annotation` event, with the path of the declarations
//! that enclose it, for every annotation it meets.

use crate::text::{join, joined};
use crate::tree::{
    lemma_item_members, Annotation, AnnotationModel, Item, ItemModel, Member, MemberModel,
    ScopeKind, SourceFile, SourceFileModel,
};
use vstd::prelude::*;
use vstd::string::*;

verus! {

/// One enclosing declaration: its kind and its name.
#[derive(Debug, PartialEq, Eq)]
pub struct Frame {
    pub kind: ScopeKind,
    pub name: String,
}

/// Model of a [`Frame`].
pub struct FrameModel {
    pub kind: ScopeKind,
    pub name: Seq<char>,
}

impl View for Frame {
    type V = FrameModel;

    open spec fn view(&self) -> FrameModel {
        FrameModel { kind: self.kind, name: self.name@ }
    }
}

impl DeepView for Frame {
    type V = FrameModel;

    open spec fn deep_view(&self) -> FrameModel {
        self@
    }
}

impl Clone for Frame {
    fn clone(&self) -> (copy: Self)
        ensures
            copy@ == self@,
    {
        Frame { kind: self.kind, name: self.name.clone() }
    }
}

/// Copies a path of frames.
pub fn copy_path(path: &Vec<Frame>) -> (copy: Vec<Frame>)
    ensures
        copy.deep_view() == path.deep_view(),
{
    let mut copy: Vec<Frame> = Vec::new();
    let mut i: usize = 0;
    while i < path.len()
        invariant
            i <= path.len(),
            copy.len() == i,
            forall|j: int| 0 <= j < i ==> copy[j]@ == path[j]@,
        decreases path.len() - i,
    {
        copy.push(path[i].clone());
        i += 1;
    }
    assert(copy.deep_view() =~= path.deep_view());
    copy
}

/// Whether two frames are the same: same kind, same name.
pub fn same_frame(a: &Frame, b: &Frame) -> (same: bool)
    ensures
        same == (a@ == b@),
{
    a.kind == b.kind && a.name == b.name
}

/// Whether two paths are the same, frame by frame.
pub fn same_path(a: &Vec<Frame>, b: &Vec<Frame>) -> (same: bool)
    ensures
        same == (a.deep_view() == b.deep_view()),
{
    if a.len() != b.len() {
        assert(a.deep_view().len() != b.deep_view().len());
        return false;
    }
    let mut i: usize = 0;
    while i < a.len()
        invariant
            i <= a.len(),
            a.len() == b.len(),
            forall|j: int| 0 <= j < i ==> a[j]@ == b[j]@,
        decreases a.len() - i,
    {
        if !same_frame(&a[i], &b[i]) {
            assert(a.deep_view()[i as int] != b.deep_view()[i as int]);
            return false;
        }
        i += 1;
    }
    assert(a.deep_view() =~= b.deep_view());
    true
}

/// The word that stands for a kind of declaration in a qualified name.
pub open spec fn scope_keyword(kind: ScopeKind) -> Seq<char> {
    match kind {
        ScopeKind::Module => "mod"@,
        ScopeKind::Struct => "struct"@,
        ScopeKind::Enum => "enum"@,
        ScopeKind::Variant => "variant"@,
        ScopeKind::Impl => "impl"@,
        ScopeKind::Function => "fn"@,
    }
}

/// A frame as text: the word for its kind, a space, its name.
pub open spec fn frame_text(frame: FrameModel) -> Seq<char> {
    scope_keyword(frame.kind) + " "@ + frame.name
}

/// The qualified name of a path: its frames as text, outermost first, joined
/// by `::`. The empty path, the top level of a file, is named `module`.
pub open spec fn qualified(path: Seq<FrameModel>) -> Seq<char> {
    if path.len() == 0 {
        "module"@
    } else {
        joined(path.map_values(|frame: FrameModel| frame_text(frame)), "::"@)
    }
}

/// Renders the qualified name of a path.
pub fn qualified_name(path: &Vec<Frame>) -> (name: String)
    ensures
        name@ == qualified(path.deep_view()),
{
    if path.len() == 0 {
        return "module".to_owned();
    }
    let mut parts: Vec<String> = Vec::new();
    let mut i: usize = 0;
    while i < path.len()
        invariant
            i <= path.len(),
            parts.len() == i,
            forall|j: int| 0 <= j < i ==> parts[j]@ == frame_text(path[j]@),
        decreases path.len() - i,
    {
        let keyword = match path[i].kind {
            ScopeKind::Module => "mod",
            ScopeKind::Struct => "struct",
            ScopeKind::Enum => "enum",
            ScopeKind::Variant => "variant",
            ScopeKind::Impl => "impl",
            ScopeKind::Function => "fn",
        };
        let mut part = keyword.to_owned();
        part.append(" ");
        part.append(path[i].name.as_str());
        parts.push(part);
        i += 1;
    }
    assert(parts.deep_view() =~= path.deep_view().map_values(
        |frame: FrameModel| frame_text(frame),
    ));
    join(&parts, "::")
}

/// What the walk reports.
#[derive(Debug, PartialEq, Eq)]
pub enum WalkEvent {
    /// A declaration was entered: its frame was pushed.
    Enter(Frame),
    /// An annotation was met inside the declarations of `owner`, outermost
    /// first. At the top level of a file `owner` is empty.
    Annotation { owner: Vec<Frame>, annotation: Annotation },
    /// The innermost declaration was left: its frame was popped.
    Leave,
}

/// Model of a [`WalkEvent`].
pub enum WalkEventModel {
    Enter(FrameModel),
    Annotation { owner: Seq<FrameModel>, annotation: AnnotationModel },
    Leave,
}

impl View for WalkEvent {
    type V = WalkEventModel;

    open spec fn view(&self) -> WalkEventModel {
        match self {
            WalkEvent::Enter(frame) => WalkEventModel::Enter(frame@),
            WalkEvent::Annotation { owner, annotation } => WalkEventModel::Annotation {
                owner: owner.deep_view(),
                annotation: annotation@,
            },
            WalkEvent::Leave => WalkEventModel::Leave,
        }
    }
}

impl DeepView for WalkEvent {
    type V = WalkEventModel;

    open spec fn deep_view(&self) -> WalkEventModel {
        self@
    }
}

/// The events of walking one member inside the declarations `ctx`.
pub open spec fn member_events(member: MemberModel, ctx: Seq<FrameModel>) -> Seq<WalkEventModel>
    decreases member,
{
    match member {
        MemberModel::Annotation(annotation) => seq![
            WalkEventModel::Annotation { owner: ctx, annotation },
        ],
        MemberModel::Item(item) => item_events(item, ctx),
    }
}

/// The events of walking one item inside the declarations `ctx`. An item that
/// opens a scope is bracketed by `Enter` and `Leave`, and its members are
/// walked inside its frame; the members of any other item are walked in `ctx`.
pub open spec fn item_events(item: ItemModel, ctx: Seq<FrameModel>) -> Seq<WalkEventModel>
    decreases item,
{
    match item.scope {
        Some(kind) => {
            let frame = FrameModel { kind, name: item.name };
            seq![WalkEventModel::Enter(frame)] + members_events(item.members, ctx.push(frame))
                + seq![WalkEventModel::Leave]
        },
        None => members_events(item.members, ctx),
    }
}

/// The events of walking members one after the other.
pub open spec fn members_events(members: Seq<MemberModel>, ctx: Seq<FrameModel>) -> Seq<
    WalkEventModel,
>
    decreases members,
{
    if members.len() == 0 {
        Seq::empty()
    } else {
        members_events(members.drop_last(), ctx) + member_events(members.last(), ctx)
    }
}

/// The events of walking a whole file, from the top level.
pub open spec fn file_events(file: SourceFileModel) -> Seq<WalkEventModel> {
    members_events(file.members, Seq::empty())
}

/// How many declarations the events enter.
pub open spec fn enters(events: Seq<WalkEventModel>) -> nat
    decreases events.len(),
{
    if events.len() == 0 {
        0
    } else {
        enters(events.drop_last()) + if events.last() is Enter {
            1nat
        } else {
            0nat
        }
    }
}

/// How many declarations the events leave.
pub open spec fn leaves(events: Seq<WalkEventModel>) -> nat
    decreases events.len(),
{
    if events.len() == 0 {
        0
    } else {
        leaves(events.drop_last()) + if events.last() is Leave {
            1nat
        } else {
            0nat
        }
    }
}

/// The enclosing declarations after `events`, for a consumer that starts in
/// `ctx`, pushes on `Enter` and pops on `Leave`.
pub open spec fn scope_after(ctx: Seq<FrameModel>, events: Seq<WalkEventModel>) -> Seq<FrameModel>
    decreases events.len(),
{
    if events.len() == 0 {
        ctx
    } else {
        let scope = scope_after(ctx, events.drop_last());
        match events.last() {
            WalkEventModel::Enter(frame) => scope.push(frame),
            WalkEventModel::Leave => if scope.len() > 0 {
                scope.drop_last()
            } else {
                scope
            },
            WalkEventModel::Annotation { .. } => scope,
        }
    }
}

/// The events are those of a walk that starts and ends in `ctx`: no `Leave`
/// pops a frame of `ctx`, and every annotation names as its owner exactly the
/// declarations that are open where it occurs.
pub open spec fn scoped_from(events: Seq<WalkEventModel>, ctx: Seq<FrameModel>) -> bool {
    &&& scope_after(ctx, events) == ctx
    &&& forall|i: int|
        0 <= i < events.len() ==> {
            let scope = #[trigger] scope_after(ctx, events.take(i));
            &&& ctx.is_prefix_of(scope)
            &&& events[i] is Leave ==> scope.len() > ctx.len()
            &&& events[i] matches WalkEventModel::Annotation { owner, .. } ==> owner == scope
        }
}

proof fn lemma_single_event(event: WalkEventModel, ctx: Seq<FrameModel>)
    ensures
        enters(seq![event]) == if event is Enter {
            1nat
        } else {
            0nat
        },
        leaves(seq![event]) == if event is Leave {
            1nat
        } else {
            0nat
        },
        scope_after(ctx, seq![event]) == match event {
            WalkEventModel::Enter(frame) => ctx.push(frame),
            WalkEventModel::Leave => if ctx.len() > 0 {
                ctx.drop_last()
            } else {
                ctx
            },
            WalkEventModel::Annotation { .. } => ctx,
        },
{
    reveal_with_fuel(enters, 2);
    reveal_with_fuel(leaves, 2);
    reveal_with_fuel(scope_after, 2);
    assert(seq![event].drop_last() =~= Seq::<WalkEventModel>::empty());
}

proof fn lemma_counts_concat(a: Seq<WalkEventModel>, b: Seq<WalkEventModel>)
    ensures
        enters(a + b) == enters(a) + enters(b),
        leaves(a + b) == leaves(a) + leaves(b),
    decreases b.len(),
{
    if b.len() == 0 {
        assert(a + b =~= a);
    } else {
        assert((a + b).drop_last() =~= a + b.drop_last());
        lemma_counts_concat(a, b.drop_last());
    }
}

proof fn lemma_scope_after_concat(
    ctx: Seq<FrameModel>,
    a: Seq<WalkEventModel>,
    b: Seq<WalkEventModel>,
)
    ensures
        scope_after(ctx, a + b) == scope_after(scope_after(ctx, a), b),
    decreases b.len(),
{
    if b.len() == 0 {
        assert(a + b =~= a);
    } else {
        assert((a + b).drop_last() =~= a + b.drop_last());
        lemma_scope_after_concat(ctx, a, b.drop_last());
    }
}

proof fn lemma_scoped_concat(a: Seq<WalkEventModel>, b: Seq<WalkEventModel>, ctx: Seq<FrameModel>)
    requires
        scoped_from(a, ctx),
        scoped_from(b, ctx),
    ensures
        scoped_from(a + b, ctx),
{
    let events = a + b;
    lemma_scope_after_concat(ctx, a, b);
    assert forall|i: int| 0 <= i < events.len() implies {
        let scope = #[trigger] scope_after(ctx, events.take(i));
        &&& ctx.is_prefix_of(scope)
        &&& events[i] is Leave ==> scope.len() > ctx.len()
        &&& events[i] matches WalkEventModel::Annotation { owner, .. } ==> owner == scope
    } by {
        if i < a.len() {
            assert(events.take(i) =~= a.take(i));
            assert(events[i] == a[i]);
        } else {
            let k = i - a.len();
            assert(events.take(i) =~= a + b.take(k));
            lemma_scope_after_concat(ctx, a, b.take(k));
            assert(events[i] == b[k]);
        }
    }
}

proof fn lemma_scoped_bracket(inner: Seq<WalkEventModel>, ctx: Seq<FrameModel>, frame: FrameModel)
    requires
        scoped_from(inner, ctx.push(frame)),
    ensures
        scoped_from(
            seq![WalkEventModel::Enter(frame)] + inner + seq![WalkEventModel::Leave],
            ctx,
        ),
{
    let enter = seq![WalkEventModel::Enter(frame)];
    let leave = seq![WalkEventModel::Leave];
    let events = enter + inner + leave;
    let within = ctx.push(frame);
    lemma_single_event(WalkEventModel::Enter(frame), ctx);
    lemma_single_event(WalkEventModel::Leave, within);
    assert(within.drop_last() =~= ctx);
    lemma_scope_after_concat(ctx, enter, inner);
    lemma_scope_after_concat(ctx, enter + inner, leave);
    assert forall|i: int| 0 <= i < events.len() implies {
        let scope = #[trigger] scope_after(ctx, events.take(i));
        &&& ctx.is_prefix_of(scope)
        &&& events[i] is Leave ==> scope.len() > ctx.len()
        &&& events[i] matches WalkEventModel::Annotation { owner, .. } ==> owner == scope
    } by {
        if i == 0 {
            assert(events.take(0) =~= Seq::<WalkEventModel>::empty());
            assert(events[0] == WalkEventModel::Enter(frame));
        } else if i <= inner.len() {
            let k = i - 1;
            assert(events.take(i) =~= enter + inner.take(k));
            lemma_scope_after_concat(ctx, enter, inner.take(k));
            assert(events[i] == inner[k]);
            let scope = scope_after(within, inner.take(k));
            assert(within.is_prefix_of(scope));
            assert(ctx.is_prefix_of(within));
        } else {
            assert(events.take(i) =~= enter + inner);
            assert(events[i] == WalkEventModel::Leave);
            assert(ctx.is_prefix_of(within));
        }
    }
}

proof fn lemma_member_events_scoped(member: MemberModel, ctx: Seq<FrameModel>)
    ensures
        scoped_from(member_events(member, ctx), ctx),
        enters(member_events(member, ctx)) == leaves(member_events(member, ctx)),
    decreases member,
{
    match member {
        MemberModel::Annotation(annotation) => {
            let events = member_events(member, ctx);
            lemma_single_event(events[0], ctx);
            assert(events.take(0) =~= Seq::<WalkEventModel>::empty());
        },
        MemberModel::Item(item) => {
            lemma_item_events_scoped(item, ctx);
        },
    }
}

proof fn lemma_item_events_scoped(item: ItemModel, ctx: Seq<FrameModel>)
    ensures
        scoped_from(item_events(item, ctx), ctx),
        enters(item_events(item, ctx)) == leaves(item_events(item, ctx)),
    decreases item,
{
    match item.scope {
        Some(kind) => {
            let frame = FrameModel { kind, name: item.name };
            let enter = seq![WalkEventModel::Enter(frame)];
            let leave = seq![WalkEventModel::Leave];
            let inner = members_events(item.members, ctx.push(frame));
            lemma_members_events_scoped(item.members, ctx.push(frame));
            lemma_scoped_bracket(inner, ctx, frame);
            lemma_counts_concat(enter, inner);
            lemma_counts_concat(enter + inner, leave);
            lemma_single_event(WalkEventModel::Enter(frame), ctx);
            lemma_single_event(WalkEventModel::Leave, ctx);
        },
        None => {
            lemma_members_events_scoped(item.members, ctx);
        },
    }
}

proof fn lemma_members_events_scoped(members: Seq<MemberModel>, ctx: Seq<FrameModel>)
    ensures
        scoped_from(members_events(members, ctx), ctx),
        enters(members_events(members, ctx)) == leaves(members_events(members, ctx)),
    decreases members,
{
    if members.len() > 0 {
        let first = members_events(members.drop_last(), ctx);
        let last = member_events(members.last(), ctx);
        lemma_members_events_scoped(members.drop_last(), ctx);
        lemma_member_events_scoped(members.last(), ctx);
        lemma_scoped_concat(first, last, ctx);
        lemma_counts_concat(first, last);
    }
}

/// The annotations among `members` and inside their items, at any depth, in
/// source order.
pub open spec fn annotations_in(members: Seq<MemberModel>) -> Seq<AnnotationModel>
    decreases members,
{
    if members.len() == 0 {
        Seq::empty()
    } else {
        annotations_in(members.drop_last()) + match members.last() {
            MemberModel::Annotation(annotation) => seq![annotation],
            MemberModel::Item(item) => annotations_in(item.members),
        }
    }
}

/// The annotations that the events report, in the order of the events.
pub open spec fn annotations_of(events: Seq<WalkEventModel>) -> Seq<AnnotationModel>
    decreases events.len(),
{
    if events.len() == 0 {
        Seq::empty()
    } else {
        let earlier = annotations_of(events.drop_last());
        match events.last() {
            WalkEventModel::Annotation { annotation, .. } => earlier.push(annotation),
            _ => earlier,
        }
    }
}

proof fn lemma_annotations_concat(a: Seq<WalkEventModel>, b: Seq<WalkEventModel>)
    ensures
        annotations_of(a + b) == annotations_of(a) + annotations_of(b),
    decreases b.len(),
{
    if b.len() == 0 {
        assert(a + b =~= a);
        assert(annotations_of(a) + annotations_of(b) =~= annotations_of(a));
    } else {
        assert((a + b).drop_last() =~= a + b.drop_last());
        lemma_annotations_concat(a, b.drop_last());
        match b.last() {
            WalkEventModel::Annotation { annotation, .. } => {
                assert((annotations_of(a) + annotations_of(b.drop_last())).push(annotation)
                    =~= annotations_of(a) + annotations_of(b.drop_last()).push(annotation));
            },
            _ => {},
        }
    }
}

proof fn lemma_single_annotation(event: WalkEventModel)
    ensures
        annotations_of(seq![event]) == match event {
            WalkEventModel::Annotation { annotation, .. } => seq![annotation],
            _ => Seq::empty(),
        },
{
    reveal_with_fuel(annotations_of, 2);
    assert(seq![event].drop_last() =~= Seq::<WalkEventModel>::empty());
    match event {
        WalkEventModel::Annotation { annotation, .. } => {
            assert(Seq::<AnnotationModel>::empty().push(annotation) =~= seq![annotation]);
        },
        _ => {},
    }
}

proof fn lemma_item_annotations(item: ItemModel, ctx: Seq<FrameModel>)
    ensures
        annotations_of(item_events(item, ctx)) == annotations_in(item.members),
    decreases item, 0nat,
{
    match item.scope {
        Some(kind) => {
            let frame = FrameModel { kind, name: item.name };
            let enter = seq![WalkEventModel::Enter(frame)];
            let leave = seq![WalkEventModel::Leave];
            let inner = members_events(item.members, ctx.push(frame));
            lemma_members_annotations(item.members, ctx.push(frame));
            lemma_annotations_concat(enter, inner);
            lemma_annotations_concat(enter + inner, leave);
            lemma_single_annotation(WalkEventModel::Enter(frame));
            lemma_single_annotation(WalkEventModel::Leave);
            assert(Seq::<AnnotationModel>::empty() + annotations_of(inner) + Seq::<
                AnnotationModel,
            >::empty() =~= annotations_of(inner));
        },
        None => {
            lemma_members_annotations(item.members, ctx);
        },
    }
}

proof fn lemma_members_annotations(members: Seq<MemberModel>, ctx: Seq<FrameModel>)
    ensures
        annotations_of(members_events(members, ctx)) == annotations_in(members),
    decreases members, 1nat,
{
    if members.len() > 0 {
        let first = members_events(members.drop_last(), ctx);
        let last = member_events(members.last(), ctx);
        lemma_members_annotations(members.drop_last(), ctx);
        lemma_annotations_concat(first, last);
        match members.last() {
            MemberModel::Annotation(annotation) => {
                lemma_single_annotation(last[0]);
            },
            MemberModel::Item(item) => {
                lemma_item_annotations(item, ctx);
            },
        }
    }
}

/// A walk reports every annotation of the file exactly once, in source order.
pub proof fn lemma_walk_complete(file: SourceFileModel)
    ensures
        annotations_of(file_events(file)) == annotations_in(file.members),
{
    lemma_members_annotations(file.members, Seq::empty());
}

/// A walk enters exactly as many declarations as it leaves.
pub proof fn lemma_walk_balanced(file: SourceFileModel)
    ensures
        enters(file_events(file)) == leaves(file_events(file)),
{
    lemma_members_events_scoped(file.members, Seq::empty());
}

/// A walk starts and ends outside every declaration, never leaves a
/// declaration that it has not entered, and reports each annotation with
/// exactly the declarations that are open at that point.
pub proof fn lemma_walk_scoped(file: SourceFileModel)
    ensures
        scoped_from(file_events(file), Seq::empty()),
{
    lemma_members_events_scoped(file.members, Seq::empty());
}

/// Walks the members of a declaration inside the declarations `ctx`, adding
/// the events to `events`. The context is the same after the walk as before.
pub fn walk_members(members: &Vec<Member>, ctx: &mut Vec<Frame>, events: &mut Vec<WalkEvent>)
    ensures
        final(ctx)@ == old(ctx)@,
        final(events).deep_view() == old(events).deep_view() + members_events(
            members.deep_view(),
            old(ctx).deep_view(),
        ),
    decreases members,
{
    let mut i: usize = 0;
    proof {
        assert(members.deep_view().take(0) =~= Seq::<MemberModel>::empty());
        assert(events.deep_view() + Seq::<WalkEventModel>::empty() =~= events.deep_view());
    }
    while i < members.len()
        invariant
            i <= members.len(),
            ctx@ == old(ctx)@,
            events.deep_view() == old(events).deep_view() + members_events(
                members.deep_view().take(i as int),
                old(ctx).deep_view(),
            ),
        decreases members.len() - i,
    {
        let ghost before = events.deep_view();
        let ghost outer = old(ctx).deep_view();
        let ghost seen = members.deep_view().take(i as int);
        let ghost next = members.deep_view().take(i + 1);
        proof {
            assert(ctx.deep_view() =~= outer);
            assert(next.drop_last() =~= seen);
            assert(next.last() == members[i as int]@);
        }
        match &members[i] {
            Member::Annotation(annotation) => {
                let event = WalkEvent::Annotation {
                    owner: copy_path(ctx),
                    annotation: annotation.clone(),
                };
                events.push(event);
                proof {
                    assert(events.deep_view() =~= before + seq![event@]);
                    assert(seq![event@] =~= member_events(next.last(), outer));
                }
            },
            Member::Item(item) => {
                walk_item(item, ctx, events);
                proof {
                    assert(item_events(item@, outer) == member_events(next.last(), outer));
                }
            },
        }
        proof {
            assert(events.deep_view() == before + member_events(next.last(), outer));
            assert(members_events(next, outer) == members_events(seen, outer) + member_events(
                next.last(),
                outer,
            ));
            assert(events.deep_view() =~= old(events).deep_view() + members_events(next, outer));
        }
        i += 1;
    }
    proof {
        assert(members.deep_view().take(members.len() as int) =~= members.deep_view());
    }
}

/// Walks one item inside the declarations `ctx`, adding the events to `events`.
/// Where the item opens a scope, its frame is pushed on entering and popped on
/// leaving, so the context is the same after the walk as before.
pub fn walk_item(item: &Item, ctx: &mut Vec<Frame>, events: &mut Vec<WalkEvent>)
    ensures
        final(ctx)@ == old(ctx)@,
        final(events).deep_view() == old(events).deep_view() + item_events(
            item@,
            old(ctx).deep_view(),
        ),
    decreases item,
{
    proof {
        lemma_item_members(*item);
    }
    match item.scope {
        Some(kind) => {
            let ghost before = events.deep_view();
            let frame = Frame { kind, name: item.name.clone() };
            events.push(WalkEvent::Enter(frame.clone()));
            ctx.push(frame);
            proof {
                assert(events.deep_view() =~= before + seq![WalkEventModel::Enter(frame@)]);
                assert(ctx.deep_view() =~= old(ctx).deep_view().push(frame@));
            }
            walk_members(&item.members, ctx, events);
            let ghost walked = events.deep_view();
            ctx.pop();
            events.push(WalkEvent::Leave);
            proof {
                assert(ctx@ =~= old(ctx)@);
                assert(events.deep_view() =~= walked + seq![WalkEventModel::Leave]);
                assert(events.deep_view() =~= before + item_events(item@, old(ctx).deep_view()));
            }
        },
        None => {
            walk_members(&item.members, ctx, events);
        },
    }
}

/// Walks a whole file and returns the events in the order in which they occur.
pub fn walk_file(file: &SourceFile) -> (events: Vec<WalkEvent>)
    ensures
        events.deep_view() == file_events(file@),
        enters(events.deep_view()) == leaves(events.deep_view()),
        scoped_from(events.deep_view(), Seq::empty()),
        annotations_of(events.deep_view()) == annotations_in(file@.members),
{
    let mut ctx: Vec<Frame> = Vec::new();
    let mut events: Vec<WalkEvent> = Vec::new();
    walk_members(&file.members, &mut ctx, &mut events);
    proof {
        lemma_walk_balanced(file@);
        lemma_walk_scoped(file@);
        lemma_walk_complete(file@);
        assert(ctx.deep_view() =~= Seq::<FrameModel>::empty());
        assert(Seq::<WalkEventModel>::empty() + file_events(file@) =~= file_events(file@));
    }
    events
}

} // verus!
