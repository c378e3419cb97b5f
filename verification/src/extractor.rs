//! Collecting the annotations of a source file, declaration by declaration.

use crate::text::{
    find_first, find_last, first_index, first_match, join, joined, last_index, lemma_first_match,
    lemma_first_match_is, to_chars,
};
use crate::tree::{copy_strings, Annotation, AnnotationModel, SourceFile};
use crate::walker::{
    copy_path, file_events, qualified, qualified_name, same_path, walk_file, Frame, FrameModel,
    WalkEvent, WalkEventModel,
};
use vstd::prelude::*;
use vstd::string::*;

verus! {

/// The payload of an annotation text: what stands between its first `(` and its
/// last `)`. Where no `(` comes before a `)`, there is no payload and the
/// result is empty.
pub open spec fn payload_of(text: Seq<char>) -> Seq<char> {
    let open = first_index(text, '(');
    let close = last_index(text, ')');
    if open < close {
        text.subrange(open + 1, close)
    } else {
        Seq::empty()
    }
}

/// `s` without the spaces that directly follow a comma. Each comma loses at
/// most the one space behind it; every other character stays, in order.
pub open spec fn without_space_after_comma(s: Seq<char>) -> Seq<char>
    decreases s.len(),
{
    if s.len() == 0 {
        s
    } else if s.len() >= 2 && s.last() == ' ' && s[s.len() - 2] == ',' {
        without_space_after_comma(s.drop_last())
    } else {
        without_space_after_comma(s.drop_last()).push(s.last())
    }
}

/// The argument text of an annotation: its payload, with the space after each
/// comma removed.
pub open spec fn argument_text(text: Seq<char>) -> Seq<char> {
    without_space_after_comma(payload_of(text))
}

/// Extending a text by a character that is not a space behind a comma extends
/// the normalised text by that character.
proof fn lemma_without_space_step(s: Seq<char>, n: int)
    requires
        0 <= n < s.len(),
    ensures
        without_space_after_comma(s.take(n + 1)) == if n >= 1 && s[n] == ' ' && s[n - 1] == ',' {
            without_space_after_comma(s.take(n))
        } else {
            without_space_after_comma(s.take(n)).push(s[n])
        },
{
    let t = s.take(n + 1);
    assert(t.drop_last() =~= s.take(n));
    assert(t.last() == s[n]);
    if n >= 1 {
        assert(t[t.len() - 2] == s[n - 1]);
    }
}

/// Derives the argument text of an annotation from its token text: the payload
/// between the first `(` and the last `)`, with exactly one space removed after
/// each comma and all other characters kept as they are. An annotation without
/// a parenthesised payload has the empty argument text.
pub fn trim_macro_contents(macro_str: &str) -> (contents: String)
    ensures
        contents@ == argument_text(macro_str@),
{
    let chars = to_chars(macro_str);
    let open = find_first(&chars, '(');
    let close = match find_last(&chars, ')') {
        Some(close) => close,
        None => {
            return String::new();
        },
    };
    if open >= close {
        return String::new();
    }
    let start = open + 1;
    let ghost payload = macro_str@.subrange(start as int, close as int);
    let mut contents = String::new();
    let mut kept_from = start;
    let mut i = start;
    proof {
        assert(payload.take(0) =~= Seq::<char>::empty());
        assert(macro_str@.subrange(start as int, start as int) =~= Seq::<char>::empty());
    }
    while i < close
        invariant
            chars@ == macro_str@,
            start <= kept_from <= i <= close <= chars.len(),
            payload == macro_str@.subrange(start as int, close as int),
            contents@ + macro_str@.subrange(kept_from as int, i as int)
                == without_space_after_comma(payload.take(i - start)),
        decreases close - i,
    {
        let ghost n = i - start;
        proof {
            lemma_without_space_step(payload, n);
            assert(payload[n] == macro_str@[i as int]);
        }
        if chars[i] == ' ' && i > start && chars[i - 1] == ',' {
            proof {
                assert(payload[n - 1] == macro_str@[i - 1]);
            }
            contents.append(macro_str.substring_char(kept_from, i));
            kept_from = i + 1;
            proof {
                assert(macro_str@.subrange(kept_from as int, i + 1) =~= Seq::<char>::empty());
                assert(contents@ + macro_str@.subrange(kept_from as int, i + 1) =~= contents@);
            }
        } else {
            proof {
                if n >= 1 {
                    assert(payload[n - 1] == macro_str@[i - 1]);
                }
                assert(macro_str@.subrange(kept_from as int, i + 1) =~= macro_str@.subrange(
                    kept_from as int,
                    i as int,
                ).push(macro_str@[i as int]));
                assert(contents@ + macro_str@.subrange(kept_from as int, i + 1) =~= (contents@
                    + macro_str@.subrange(kept_from as int, i as int)).push(macro_str@[i as int]));
            }
        }
        i += 1;
    }
    contents.append(macro_str.substring_char(kept_from, close));
    proof {
        assert(payload.take(close - start) =~= payload);
    }
    contents
}

/// The annotations of one kind on one declaration: the kind and the argument
/// texts, in source order.
#[derive(Debug, PartialEq, Eq)]
pub struct KindMacros {
    pub kind: String,
    pub args: Vec<String>,
}

/// Model of a [`KindMacros`].
pub struct KindMacrosModel {
    pub kind: Seq<char>,
    pub args: Seq<Seq<char>>,
}

impl View for KindMacros {
    type V = KindMacrosModel;

    open spec fn view(&self) -> KindMacrosModel {
        KindMacrosModel { kind: self.kind@, args: self.args.deep_view() }
    }
}

impl DeepView for KindMacros {
    type V = KindMacrosModel;

    open spec fn deep_view(&self) -> KindMacrosModel {
        self@
    }
}

/// The annotations of one declaration: the path of the declaration and its
/// annotations by kind, each kind in the order of its first occurrence.
#[derive(Debug, PartialEq, Eq)]
pub struct ItemMacros {
    pub owner: Vec<Frame>,
    pub kinds: Vec<KindMacros>,
}

/// Model of an [`ItemMacros`].
pub struct ItemMacrosModel {
    pub owner: Seq<FrameModel>,
    pub kinds: Seq<KindMacrosModel>,
}

impl View for ItemMacros {
    type V = ItemMacrosModel;

    open spec fn view(&self) -> ItemMacrosModel {
        ItemMacrosModel { owner: self.owner.deep_view(), kinds: self.kinds.deep_view() }
    }
}

impl DeepView for ItemMacros {
    type V = ItemMacrosModel;

    open spec fn deep_view(&self) -> ItemMacrosModel {
        self@
    }
}

/// The annotation map of a file: one entry for each declaration that carries
/// annotations, in the order in which the declarations are first met.
pub type AnnotationMap = Vec<ItemMacros>;

/// Where the annotations of `kind` stand among `kinds`: the position of the
/// first entry of that kind, or the length if there is none.
pub open spec fn kind_position(kinds: Seq<KindMacrosModel>, kind: Seq<char>) -> int {
    first_match(kinds, |entry: KindMacrosModel| entry.kind == kind)
}

/// Where the annotations of `owner` stand in the map: the position of the
/// first entry of that declaration, or the length if there is none.
pub open spec fn owner_position(map: Seq<ItemMacrosModel>, owner: Seq<FrameModel>) -> int {
    first_match(map, |entry: ItemMacrosModel| entry.owner == owner)
}

/// The argument texts that `kinds` holds for `kind`; empty where it holds none.
pub open spec fn args_of_kind(kinds: Seq<KindMacrosModel>, kind: Seq<char>) -> Seq<Seq<char>> {
    let k = kind_position(kinds, kind);
    if k < kinds.len() {
        kinds[k].args
    } else {
        Seq::empty()
    }
}

/// The argument texts that the map holds for `kind` on `owner`, in the order in
/// which they were recorded; empty where it holds none.
pub open spec fn lookup(map: Seq<ItemMacrosModel>, owner: Seq<FrameModel>, kind: Seq<char>) -> Seq<
    Seq<char>,
> {
    let at = owner_position(map, owner);
    if at < map.len() {
        args_of_kind(map[at].kinds, kind)
    } else {
        Seq::empty()
    }
}

/// `kinds` after one more annotation of `kind` with argument text `arg`: the
/// text is appended to the entry of that kind, or a new entry is added behind
/// the others.
pub open spec fn recorded_kind(kinds: Seq<KindMacrosModel>, kind: Seq<char>, arg: Seq<char>) -> Seq<
    KindMacrosModel,
> {
    let k = kind_position(kinds, kind);
    if k < kinds.len() {
        kinds.update(k, KindMacrosModel { kind, args: kinds[k].args.push(arg) })
    } else {
        kinds.push(KindMacrosModel { kind, args: seq![arg] })
    }
}

/// The map after one more annotation of `kind` on `owner` with argument text
/// `arg`: it goes to the entry of that declaration, or to a new entry behind
/// the others.
pub open spec fn recorded(
    map: Seq<ItemMacrosModel>,
    owner: Seq<FrameModel>,
    kind: Seq<char>,
    arg: Seq<char>,
) -> Seq<ItemMacrosModel> {
    let at = owner_position(map, owner);
    if at < map.len() {
        map.update(
            at,
            ItemMacrosModel { owner, kinds: recorded_kind(map[at].kinds, kind, arg) },
        )
    } else {
        map.push(ItemMacrosModel { owner, kinds: recorded_kind(Seq::empty(), kind, arg) })
    }
}

/// Finds the entry of `owner` in the map: its position, or the length of the
/// map where there is none.
pub fn find_owner(map: &Vec<ItemMacros>, owner: &Vec<Frame>) -> (at: usize)
    ensures
        at == owner_position(map.deep_view(), owner.deep_view()),
        at <= map.len(),
        at < map.len() ==> map[at as int].owner.deep_view() == owner.deep_view(),
{
    let ghost wanted = |entry: ItemMacrosModel| entry.owner == owner.deep_view();
    let mut at: usize = 0;
    while at < map.len()
        invariant
            at <= map.len(),
            wanted == |entry: ItemMacrosModel| entry.owner == owner.deep_view(),
            forall|j: int| 0 <= j < at ==> !wanted(#[trigger] map.deep_view()[j]),
        decreases map.len() - at,
    {
        if same_path(&map[at].owner, owner) {
            proof {
                lemma_first_match_is(map.deep_view(), wanted, at as int);
            }
            return at;
        }
        at += 1;
    }
    proof {
        lemma_first_match_is(map.deep_view(), wanted, at as int);
    }
    at
}

/// Finds the entry of `kind` among `kinds`: its position, or the length where
/// there is none.
pub fn find_kind(kinds: &Vec<KindMacros>, kind: &String) -> (at: usize)
    ensures
        at == kind_position(kinds.deep_view(), kind@),
        at <= kinds.len(),
        at < kinds.len() ==> kinds[at as int].kind@ == kind@,
{
    let ghost wanted = |entry: KindMacrosModel| entry.kind == kind@;
    let mut at: usize = 0;
    while at < kinds.len()
        invariant
            at <= kinds.len(),
            wanted == |entry: KindMacrosModel| entry.kind == kind@,
            forall|j: int| 0 <= j < at ==> !wanted(#[trigger] kinds.deep_view()[j]),
        decreases kinds.len() - at,
    {
        if kinds[at].kind == *kind {
            proof {
                lemma_first_match_is(kinds.deep_view(), wanted, at as int);
            }
            return at;
        }
        at += 1;
    }
    proof {
        lemma_first_match_is(kinds.deep_view(), wanted, at as int);
    }
    at
}

/// Records one annotation of `kind` with argument text `arg` among `kinds`.
pub fn record_kind(kinds: &mut Vec<KindMacros>, kind: String, arg: String)
    ensures
        final(kinds).deep_view() == recorded_kind(old(kinds).deep_view(), kind@, arg@),
{
    let at = find_kind(kinds, &kind);
    if at < kinds.len() {
        let ghost before = kinds.deep_view();
        kinds[at].args.push(arg);
        proof {
            assert(kinds[at as int].args.deep_view() =~= before[at as int].args.push(arg@));
            assert(kinds.deep_view() =~= recorded_kind(before, kind@, arg@));
        }
    } else {
        let ghost before = kinds.deep_view();
        let mut args: Vec<String> = Vec::new();
        args.push(arg);
        let entry = KindMacros { kind, args };
        proof {
            assert(entry@.args =~= seq![arg@]);
        }
        kinds.push(entry);
        proof {
            assert(kinds.deep_view() =~= before.push(entry@));
        }
    }
}

/// Records one annotation of `kind` on the declaration `owner`, with argument
/// text `arg`.
pub fn record(map: &mut Vec<ItemMacros>, owner: &Vec<Frame>, kind: String, arg: String)
    ensures
        final(map).deep_view() == recorded(old(map).deep_view(), owner.deep_view(), kind@, arg@),
        well_formed(old(map).deep_view()) ==> well_formed(final(map).deep_view()),
{
    let at = find_owner(map, owner);
    let ghost before = map.deep_view();
    proof {
        lemma_recorded(before, owner.deep_view(), kind@, arg@);
    }
    if at < map.len() {
        record_kind(&mut map[at].kinds, kind, arg);
        proof {
            assert(map.deep_view() =~= recorded(before, owner.deep_view(), kind@, arg@));
        }
    } else {
        let mut kinds: Vec<KindMacros> = Vec::new();
        proof {
            assert(kinds.deep_view() =~= Seq::<KindMacrosModel>::empty());
        }
        record_kind(&mut kinds, kind, arg);
        let entry = ItemMacros { owner: copy_path(owner), kinds };
        map.push(entry);
        proof {
            assert(map.deep_view() =~= before.push(entry@));
        }
    }
}

/// The kind of an annotation: the last segment of its name, or `unknown` for an
/// annotation without a name.
pub open spec fn annotation_kind(annotation: AnnotationModel) -> Seq<char> {
    if annotation.path.len() > 0 {
        annotation.path.last()
    } else {
        "unknown"@
    }
}

/// The map `map` after the annotations among `events` have been recorded, in
/// the order of the events. `Enter` and `Leave` events leave the map as it is.
pub open spec fn extracted_onto(map: Seq<ItemMacrosModel>, events: Seq<WalkEventModel>) -> Seq<
    ItemMacrosModel,
>
    decreases events.len(),
{
    if events.len() == 0 {
        map
    } else {
        let earlier = extracted_onto(map, events.drop_last());
        match events.last() {
            WalkEventModel::Annotation { owner, annotation } => recorded(
                earlier,
                owner,
                annotation_kind(annotation),
                argument_text(annotation.tokens),
            ),
            _ => earlier,
        }
    }
}

/// The annotation map of a sequence of walk events.
pub open spec fn extracted(events: Seq<WalkEventModel>) -> Seq<ItemMacrosModel> {
    extracted_onto(Seq::empty(), events)
}

/// The argument texts of the annotations of `kind` that `events` report on the
/// declaration `owner`, in the order in which they occur.
pub open spec fn occurrences(
    events: Seq<WalkEventModel>,
    owner: Seq<FrameModel>,
    kind: Seq<char>,
) -> Seq<Seq<char>>
    decreases events.len(),
{
    if events.len() == 0 {
        Seq::empty()
    } else {
        let earlier = occurrences(events.drop_last(), owner, kind);
        match events.last() {
            WalkEventModel::Annotation { owner: here, annotation } => if here == owner
                && annotation_kind(annotation) == kind {
                earlier.push(argument_text(annotation.tokens))
            } else {
                earlier
            },
            _ => earlier,
        }
    }
}

/// No two entries are of the same kind, and every entry holds an argument text.
pub open spec fn kinds_well_formed(kinds: Seq<KindMacrosModel>) -> bool {
    &&& forall|i: int, j: int|
        0 <= i < j < kinds.len() ==> (#[trigger] kinds[i]).kind != (#[trigger] kinds[j]).kind
    &&& forall|i: int| 0 <= i < kinds.len() ==> (#[trigger] kinds[i]).args.len() > 0
}

/// The map is a mapping: no two entries are of the same declaration, no two
/// entries of a declaration are of the same kind, and every entry that is there
/// holds at least one annotation.
pub open spec fn well_formed(map: Seq<ItemMacrosModel>) -> bool {
    &&& forall|i: int, j: int|
        0 <= i < j < map.len() ==> (#[trigger] map[i]).owner != (#[trigger] map[j]).owner
    &&& forall|i: int|
        0 <= i < map.len() ==> (#[trigger] map[i]).kinds.len() > 0 && kinds_well_formed(
            map[i].kinds,
        )
}

proof fn lemma_recorded_kind(kinds: Seq<KindMacrosModel>, kind: Seq<char>, arg: Seq<char>)
    ensures
        forall|other: Seq<char>|
            #[trigger] args_of_kind(recorded_kind(kinds, kind, arg), other) == if other == kind {
                args_of_kind(kinds, kind).push(arg)
            } else {
                args_of_kind(kinds, other)
            },
        kinds_well_formed(kinds) ==> kinds_well_formed(recorded_kind(kinds, kind, arg)),
        recorded_kind(kinds, kind, arg).len() > 0,
{
    let wanted = |entry: KindMacrosModel| entry.kind == kind;
    let after = recorded_kind(kinds, kind, arg);
    let k = kind_position(kinds, kind);
    lemma_first_match(kinds, wanted);
    assert forall|other: Seq<char>|
        #[trigger] args_of_kind(after, other) == if other == kind {
            args_of_kind(kinds, kind).push(arg)
        } else {
            args_of_kind(kinds, other)
        } by {
        let sought = |entry: KindMacrosModel| entry.kind == other;
        lemma_first_match(kinds, sought);
        let q = first_match(kinds, sought);
        if other == kind {
            assert(q == k) by {
                lemma_first_match_is(kinds, sought, k);
            }
            lemma_first_match_is(after, sought, k);
            if k == kinds.len() {
                assert(seq![arg] =~= Seq::<Seq<char>>::empty().push(arg));
            }
        } else if q < kinds.len() {
            lemma_first_match_is(after, sought, q);
        } else {
            lemma_first_match_is(after, sought, after.len() as int);
        }
    }
    if kinds_well_formed(kinds) {
        assert forall|i: int, j: int| 0 <= i < j < after.len() implies (#[trigger] after[i]).kind
            != (#[trigger] after[j]).kind by {
            if k < kinds.len() {
                assert(after[i].kind == kinds[i].kind);
                assert(after[j].kind == kinds[j].kind);
            } else if j == kinds.len() {
                assert(!wanted(kinds[i]));
            }
        }
    }
}

/// What a map holds after one more annotation was recorded: the new argument
/// text behind the others of its declaration and kind, and for every other
/// declaration and kind what it held before. A mapping stays a mapping.
pub proof fn lemma_recorded(
    map: Seq<ItemMacrosModel>,
    owner: Seq<FrameModel>,
    kind: Seq<char>,
    arg: Seq<char>,
)
    ensures
        forall|o: Seq<FrameModel>, k: Seq<char>|
            #[trigger] lookup(recorded(map, owner, kind, arg), o, k) == if o == owner && k
                == kind {
                lookup(map, owner, kind).push(arg)
            } else {
                lookup(map, o, k)
            },
        well_formed(map) ==> well_formed(recorded(map, owner, kind, arg)),
{
    let wanted = |entry: ItemMacrosModel| entry.owner == owner;
    let after = recorded(map, owner, kind, arg);
    let at = owner_position(map, owner);
    lemma_first_match(map, wanted);
    if at < map.len() {
        lemma_recorded_kind(map[at].kinds, kind, arg);
    } else {
        lemma_recorded_kind(Seq::empty(), kind, arg);
    }
    assert forall|o: Seq<FrameModel>, k: Seq<char>|
        #[trigger] lookup(after, o, k) == if o == owner && k == kind {
            lookup(map, owner, kind).push(arg)
        } else {
            lookup(map, o, k)
        } by {
        let sought = |entry: ItemMacrosModel| entry.owner == o;
        lemma_first_match(map, sought);
        let q = first_match(map, sought);
        if o == owner {
            assert(q == at) by {
                lemma_first_match_is(map, sought, at);
            }
            lemma_first_match_is(after, sought, at);
            if at == map.len() {
                lemma_first_match_is(
                    Seq::<KindMacrosModel>::empty(),
                    |entry: KindMacrosModel| entry.kind == k,
                    0,
                );
                lemma_first_match_is(
                    Seq::<KindMacrosModel>::empty(),
                    |entry: KindMacrosModel| entry.kind == kind,
                    0,
                );
            }
        } else if q < map.len() {
            lemma_first_match_is(after, sought, q);
        } else {
            lemma_first_match_is(after, sought, after.len() as int);
        }
    }
    if well_formed(map) {
        assert forall|i: int, j: int| 0 <= i < j < after.len() implies (#[trigger] after[i]).owner
            != (#[trigger] after[j]).owner by {
            if at < map.len() {
                assert(after[i].owner == map[i].owner);
                assert(after[j].owner == map[j].owner);
            } else if j == map.len() {
                assert(!wanted(map[i]));
            }
        }
        assert forall|i: int| 0 <= i < after.len() implies (#[trigger] after[i]).kinds.len() > 0
            && kinds_well_formed(after[i].kinds) by {
            if i < map.len() && i != at {
                assert(after[i] == map[i]);
            }
        }
    }
}

/// The annotation map of a walk holds, for every declaration and kind, exactly
/// the argument texts of the annotations of that kind met on that declaration,
/// as many as there are and in source order; and it is a mapping.
pub proof fn lemma_extracted(events: Seq<WalkEventModel>)
    ensures
        forall|owner: Seq<FrameModel>, kind: Seq<char>|
            #[trigger] lookup(extracted(events), owner, kind) == occurrences(events, owner, kind),
        well_formed(extracted(events)),
    decreases events.len(),
{
    if events.len() == 0 {
        assert forall|owner: Seq<FrameModel>, kind: Seq<char>|
            #[trigger] lookup(extracted(events), owner, kind) == occurrences(
                events,
                owner,
                kind,
            ) by {
            lemma_first_match_is(
                Seq::<ItemMacrosModel>::empty(),
                |entry: ItemMacrosModel| entry.owner == owner,
                0,
            );
        }
    } else {
        let earlier = extracted(events.drop_last());
        lemma_extracted(events.drop_last());
        match events.last() {
            WalkEventModel::Annotation { owner, annotation } => {
                lemma_recorded(
                    earlier,
                    owner,
                    annotation_kind(annotation),
                    argument_text(annotation.tokens),
                );
            },
            _ => {},
        }
    }
}

/// Every annotation that a walk reports is in the annotation map, under its
/// declaration and its kind.
pub proof fn lemma_every_annotation_extracted(events: Seq<WalkEventModel>, i: int)
    requires
        0 <= i < events.len(),
        events[i] is Annotation,
    ensures
        lookup(
            extracted(events),
            events[i]->owner,
            annotation_kind(events[i]->annotation),
        ).contains(argument_text(events[i]->annotation.tokens)),
    decreases events.len(),
{
    let owner = events[i]->owner;
    let kind = annotation_kind(events[i]->annotation);
    let arg = argument_text(events[i]->annotation.tokens);
    lemma_extracted(events);
    if i == events.len() - 1 {
        let found = occurrences(events, owner, kind);
        assert(found[found.len() - 1] == arg);
    } else {
        let earlier = events.drop_last();
        lemma_extracted(earlier);
        lemma_every_annotation_extracted(earlier, i);
        let before = occurrences(earlier, owner, kind);
        let at = choose|at: int| 0 <= at < before.len() && before[at] == arg;
        assert(occurrences(events, owner, kind)[at] == arg);
    }
}

/// Collects the annotations that a walk reports into an annotation map.
pub struct MacroExtractor {
    pub item_macros: Vec<ItemMacros>,
}

impl MacroExtractor {
    /// An extractor that has seen nothing yet.
    pub fn new() -> (extractor: Self)
        ensures
            extractor.item_macros.deep_view() == Seq::<ItemMacrosModel>::empty(),
    {
        let extractor = MacroExtractor { item_macros: Vec::new() };
        assert(extractor.item_macros.deep_view() =~= Seq::<ItemMacrosModel>::empty());
        extractor
    }

    /// Records one annotation met inside the declarations of `owner`: under the
    /// kind given by the last segment of its name, with the argument text
    /// derived from its tokens.
    pub fn visit_attribute(&mut self, owner: &Vec<Frame>, attr: &Annotation)
        ensures
            final(self).item_macros.deep_view() == recorded(
                old(self).item_macros.deep_view(),
                owner.deep_view(),
                annotation_kind(attr@),
                argument_text(attr@.tokens),
            ),
            well_formed(old(self).item_macros.deep_view()) ==> well_formed(
                final(self).item_macros.deep_view(),
            ),
    {
        let macro_name = if attr.path.len() > 0 {
            attr.path[attr.path.len() - 1].clone()
        } else {
            "unknown".to_owned()
        };
        let trimmed_contents = trim_macro_contents(attr.tokens.as_str());
        record(&mut self.item_macros, owner, macro_name, trimmed_contents);
    }

    /// Records the annotations among `events`, in order.
    pub fn visit_events(&mut self, events: &Vec<WalkEvent>)
        ensures
            final(self).item_macros.deep_view() == extracted_onto(
                old(self).item_macros.deep_view(),
                events.deep_view(),
            ),
    {
        let ghost start = self.item_macros.deep_view();
        let mut i: usize = 0;
        proof {
            assert(events.deep_view().take(0) =~= Seq::<WalkEventModel>::empty());
        }
        while i < events.len()
            invariant
                i <= events.len(),
                self.item_macros.deep_view() == extracted_onto(
                    start,
                    events.deep_view().take(i as int),
                ),
            decreases events.len() - i,
        {
            proof {
                let next = events.deep_view().take(i + 1);
                assert(next.drop_last() =~= events.deep_view().take(i as int));
                assert(next.last() == events[i as int]@);
            }
            match &events[i] {
                WalkEvent::Annotation { owner, annotation } => {
                    self.visit_attribute(owner, annotation);
                },
                _ => {},
            }
            i += 1;
        }
        proof {
            assert(events.deep_view().take(events.len() as int) =~= events.deep_view());
        }
    }

    /// Walks `file` and records the annotations met on the way.
    pub fn visit_file(&mut self, file: &SourceFile)
        ensures
            final(self).item_macros.deep_view() == extracted_onto(
                old(self).item_macros.deep_view(),
                file_events(file@),
            ),
    {
        let events = walk_file(file);
        self.visit_events(&events);
    }
}

/// The annotation map of a file: for every declaration that carries
/// annotations, and for every kind of annotation on it, the argument texts of
/// all the annotations of that kind met on that declaration, in source order.
pub fn extract_annotations(file: &SourceFile) -> (map: Vec<ItemMacros>)
    ensures
        map.deep_view() == extracted(file_events(file@)),
        well_formed(map.deep_view()),
        forall|owner: Seq<FrameModel>, kind: Seq<char>|
            #[trigger] lookup(map.deep_view(), owner, kind) == occurrences(
                file_events(file@),
                owner,
                kind,
            ),
{
    let mut extractor = MacroExtractor::new();
    extractor.visit_file(file);
    proof {
        lemma_extracted(file_events(file@));
    }
    extractor.item_macros
}

/// Copies the argument texts that the map holds for `kind` on `owner`; the
/// result is empty where it holds none.
pub fn find_annotations(map: &Vec<ItemMacros>, owner: &Vec<Frame>, kind: &String) -> (args: Vec<
    String,
>)
    ensures
        args.deep_view() == lookup(map.deep_view(), owner.deep_view(), kind@),
{
    let at = find_owner(map, owner);
    if at < map.len() {
        let k = find_kind(&map[at].kinds, kind);
        if k < map[at].kinds.len() {
            return copy_strings(&map[at].kinds[k].args);
        }
    }
    let args: Vec<String> = Vec::new();
    assert(args.deep_view() =~= Seq::<Seq<char>>::empty());
    args
}

/// One line of the annotation report: three spaces, the kind, a colon and a
/// space, the argument texts separated by commas, and a line end.
pub open spec fn kind_line(entry: KindMacrosModel) -> Seq<char> {
    "   "@ + entry.kind + ": "@ + joined(entry.args, ","@) + "\n"@
}

/// The lines of all the kinds of a declaration, in order.
pub open spec fn kind_lines(kinds: Seq<KindMacrosModel>) -> Seq<char>
    decreases kinds.len(),
{
    if kinds.len() == 0 {
        Seq::empty()
    } else {
        kind_lines(kinds.drop_last()) + kind_line(kinds.last())
    }
}

/// The block of one declaration in the annotation report: its qualified name
/// and an opening brace, one line for each kind, a closing brace, and an empty
/// line.
pub open spec fn item_block(entry: ItemMacrosModel) -> Seq<char> {
    qualified(entry.owner) + " {\n"@ + kind_lines(entry.kinds) + "}\n\n"@
}

/// The annotation report of a map: the blocks of its declarations, in order.
pub open spec fn macros_report(map: Seq<ItemMacrosModel>) -> Seq<char>
    decreases map.len(),
{
    if map.len() == 0 {
        Seq::empty()
    } else {
        macros_report(map.drop_last()) + item_block(map.last())
    }
}

/// Adds the block of one declaration to a report.
fn write_item_block(report: &mut String, entry: &ItemMacros)
    ensures
        final(report)@ == old(report)@ + item_block(entry@),
{
    let ghost start = report@;
    report.append(qualified_name(&entry.owner).as_str());
    report.append(" {\n");
    let ghost head = report@;
    let mut k: usize = 0;
    proof {
        assert(entry.kinds.deep_view().take(0) =~= Seq::<KindMacrosModel>::empty());
        assert(head + Seq::<char>::empty() =~= head);
    }
    while k < entry.kinds.len()
        invariant
            k <= entry.kinds.len(),
            report@ == head + kind_lines(entry.kinds.deep_view().take(k as int)),
        decreases entry.kinds.len() - k,
    {
        let ghost seen = entry.kinds.deep_view().take(k as int);
        let ghost next = entry.kinds.deep_view().take(k + 1);
        proof {
            assert(next.drop_last() =~= seen);
            assert(next.last() == entry.kinds[k as int]@);
        }
        let kind = &entry.kinds[k];
        report.append("   ");
        report.append(kind.kind.as_str());
        report.append(": ");
        report.append(join(&kind.args, ",").as_str());
        report.append("\n");
        proof {
            assert(report@ =~= head + (kind_lines(seen) + kind_line(kind@)));
        }
        k += 1;
    }
    report.append("}\n\n");
    proof {
        assert(entry.kinds.deep_view().take(entry.kinds.len() as int) =~= entry.kinds.deep_view());
        assert(report@ =~= start + item_block(entry@));
    }
}

/// Renders the annotation report of a map: one block for each declaration, in
/// the order of the map.
pub fn render_macros(map: &Vec<ItemMacros>) -> (report: String)
    ensures
        report@ == macros_report(map.deep_view()),
{
    let mut report = String::new();
    let mut i: usize = 0;
    proof {
        assert(map.deep_view().take(0) =~= Seq::<ItemMacrosModel>::empty());
    }
    while i < map.len()
        invariant
            i <= map.len(),
            report@ == macros_report(map.deep_view().take(i as int)),
        decreases map.len() - i,
    {
        proof {
            let next = map.deep_view().take(i + 1);
            assert(next.drop_last() =~= map.deep_view().take(i as int));
            assert(next.last() == map[i as int]@);
        }
        write_item_block(&mut report, &map[i]);
        i += 1;
    }
    proof {
        assert(map.deep_view().take(map.len() as int) =~= map.deep_view());
    }
    report
}

/// The annotation report of a source file: its annotations are collected,
/// declaration by declaration, and rendered as text.
pub fn compile_macros(file: &SourceFile) -> (report: String)
    ensures
        report@ == macros_report(extracted(file_events(file@))),
{
    let map = extract_annotations(file);
    render_macros(&map)
}

} // verus!
