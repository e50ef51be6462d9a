//! The selection list offered to the user, and turning the user's choice
//! back into targets and resources.
use vstd::prelude::*;
use vstd::string::*;
use crate::error::{TfocusError, TfocusErrorView};
use crate::text::{decimal, decimal_string, pad_left, pad_left_string, pad_right, pad_right_string};
use crate::error::strings_view;
use crate::executor::{
    contains_string, dedup_first, lemma_dedup_first, lemma_dedup_first_distinct, planned,
    target_option, target_options_of, ExecutionPlanView,
};
use crate::paths::path_order;
use crate::workdir::{
    lemma_single_directory, lists_directories_of, resource_dirs, resource_files, same_directory,
    validate_single_working_directory, working_dir_of,
};
use crate::project::{select_matching, TerraformProject};
use crate::types::{
    resources_view, target_address, Operation, Resource, ResourceView, Target, TargetView,
};

verus! {

/// One entry the user can pick: a file, a module or a resource, with its
/// position in the list.
#[derive(Debug)]
pub enum SelectionItem {
    File(usize, String),
    Module(usize, String),
    Resource(usize, Resource),
}

/// The mathematical value of a [`SelectionItem`].
pub enum SelectionItemView {
    File(nat, Seq<char>),
    Module(nat, Seq<char>),
    Resource(nat, ResourceView),
}

impl View for SelectionItem {
    type V = SelectionItemView;

    open spec fn view(&self) -> SelectionItemView {
        match self {
            SelectionItem::File(i, p) => SelectionItemView::File(*i as nat, p@),
            SelectionItem::Module(i, n) => SelectionItemView::Module(*i as nat, n@),
            SelectionItem::Resource(i, r) => SelectionItemView::Resource(*i as nat, r@),
        }
    }
}

/// A line of the selector: what is shown, what the search matches against,
/// and the data that identifies the choice.
#[derive(Clone, Debug, PartialEq, Eq)]
pub struct SelectItem {
    pub display: String,
    pub search_text: String,
    pub data: String,
}

/// The mathematical value of a [`SelectItem`].
pub struct SelectItemView {
    pub display: Seq<char>,
    pub search_text: Seq<char>,
    pub data: Seq<char>,
}

impl View for SelectItem {
    type V = SelectItemView;

    open spec fn view(&self) -> SelectItemView {
        SelectItemView { display: self.display@, search_text: self.search_text@, data: self.data@ }
    }
}

/// How a resource is named in the list: `module.NAME` or `TYPE.NAME`.
pub open spec fn resource_text(r: ResourceView) -> Seq<char> {
    if r.is_module {
        "module."@ + r.name
    } else {
        r.resource_type + "."@ + r.name
    }
}

/// A displayed line: the position right-aligned in 4 columns, the kind
/// left-aligned in 15 columns, then the text, separated by spaces.
pub open spec fn display_line(idx: nat, kind: Seq<char>, text: Seq<char>) -> Seq<char> {
    pad_left(decimal(idx), 4) + " "@ + pad_right(kind, 15) + " "@ + text
}

/// The selector line for an item.
pub open spec fn selection_entry(item: SelectionItemView) -> SelectItemView {
    match item {
        SelectionItemView::File(idx, path) => SelectItemView {
            display: display_line(idx, "[File]"@, path),
            search_text: path,
            data: "f:"@ + path,
        },
        SelectionItemView::Module(idx, name) => SelectItemView {
            display: display_line(idx, "[Module]"@, name),
            search_text: name,
            data: "m:"@ + name,
        },
        SelectionItemView::Resource(idx, r) => SelectItemView {
            display: display_line(
                idx,
                if r.is_module {
                    "[Module]"@
                } else {
                    "[Resource]"@
                },
                resource_text(r),
            ),
            search_text: resource_text(r),
            data: if r.is_module {
                "m:"@ + r.name
            } else {
                "r:"@ + r.resource_type + "."@ + r.name
            },
        },
    }
}

fn display_line_string(idx: usize, kind: &str, text: &str) -> (s: String)
    ensures
        s@ == display_line(idx as nat, kind@, text@),
{
    let number = decimal_string(idx);
    pad_left_string(number.as_str(), 4).concat(" ").concat(pad_right_string(kind, 15).as_str()).concat(
        " ",
    ).concat(text)
}

fn resource_text_string(r: &Resource) -> (s: String)
    ensures
        s@ == resource_text(r@),
{
    if r.is_module {
        String::from_str("module.").concat(r.name.as_str())
    } else {
        r.resource_type.clone().concat(".").concat(r.name.as_str())
    }
}

fn selection_entry_of(item: &SelectionItem) -> (e: SelectItem)
    ensures
        e@ == selection_entry(item@),
{
    match item {
        SelectionItem::File(idx, path) => SelectItem {
            display: display_line_string(*idx, "[File]", path.as_str()),
            search_text: path.clone(),
            data: String::from_str("f:").concat(path.as_str()),
        },
        SelectionItem::Module(idx, name) => SelectItem {
            display: display_line_string(*idx, "[Module]", name.as_str()),
            search_text: name.clone(),
            data: String::from_str("m:").concat(name.as_str()),
        },
        SelectionItem::Resource(idx, resource) => {
            let text = resource_text_string(resource);
            let kind = if resource.is_module {
                "[Module]"
            } else {
                "[Resource]"
            };
            SelectItem {
                display: display_line_string(*idx, kind, text.as_str()),
                search_text: text,
                data: if resource.is_module {
                    String::from_str("m:").concat(resource.name.as_str())
                } else {
                    String::from_str("r:").concat(resource.resource_type.as_str()).concat(
                        ".",
                    ).concat(resource.name.as_str())
                },
            }
        },
    }
}

/// The selector lines for the items, one per item, in order.
pub fn create_selection_items(selection_items: &[SelectionItem]) -> (res: Vec<SelectItem>)
    ensures
        res@.len() == selection_items@.len(),
        forall|i: int|
            0 <= i < res@.len() ==> #[trigger] res@[i]@ == selection_entry(selection_items@[i]@),
{
    let mut res: Vec<SelectItem> = Vec::new();
    let n = selection_items.len();
    for i in 0..n
        invariant
            n == selection_items@.len(),
            res@.len() == i,
            forall|j: int|
                0 <= j < i ==> #[trigger] res@[j]@ == selection_entry(selection_items@[j]@),
    {
        res.push(selection_entry_of(&selection_items[i]));
    }
    res
}

/// Whether `s` starts with the tag `c:`.
pub open spec fn has_tag(s: Seq<char>, c: char) -> bool {
    s.len() >= 2 && s[0] == c && s[1] == ':'
}

/// `s` split at the first occurrence of `c` (which is dropped), if any.
pub open spec fn split_first(s: Seq<char>, c: char) -> Option<(Seq<char>, Seq<char>)>
    decreases s.len(),
{
    if s.len() == 0 {
        None
    } else if s[0] == c {
        Some((seq![], s.drop_first()))
    } else {
        match split_first(s.drop_first(), c) {
            Some((a, b)) => Some((seq![s[0]] + a, b)),
            None => None,
        }
    }
}

/// The target a selector line's data names: `f:PATH`, `m:NAME` or
/// `r:TYPE.NAME`, the type ending at the first dot.
pub open spec fn spec_parse_selected_item(s: Seq<char>) -> Result<TargetView, TfocusErrorView> {
    if has_tag(s, 'f') {
        Ok(TargetView::File(s.skip(2)))
    } else if has_tag(s, 'm') {
        Ok(TargetView::Module(s.skip(2)))
    } else if has_tag(s, 'r') {
        match split_first(s.skip(2), '.') {
            Some((t, n)) => Ok(TargetView::Resource(t, n)),
            None => Err(TfocusErrorView::InvalidTargetSelection),
        }
    } else {
        Err(TfocusErrorView::InvalidTargetSelection)
    }
}

proof fn lemma_split_first_at(s: Seq<char>, c: char, k: int)
    requires
        0 <= k < s.len(),
        s[k] == c,
        forall|j: int| 0 <= j < k ==> s[j] != c,
    ensures
        split_first(s, c) == Some((s.take(k), s.skip(k + 1))),
    decreases k,
{
    if k == 0 {
        assert(s.take(0) =~= Seq::<char>::empty());
        assert(s.drop_first() =~= s.skip(1));
    } else {
        let t = s.drop_first();
        assert forall|j: int| 0 <= j < k - 1 implies t[j] != c by {
            assert(t[j] == s[j + 1]);
        }
        lemma_split_first_at(t, c, k - 1);
        assert(seq![s[0]] + t.take(k - 1) =~= s.take(k));
        assert(t.skip(k) =~= s.skip(k + 1));
    }
}

proof fn lemma_split_first_none(s: Seq<char>, c: char)
    requires
        forall|j: int| 0 <= j < s.len() ==> s[j] != c,
    ensures
        split_first(s, c) is None,
    decreases s.len(),
{
    if s.len() > 0 {
        let t = s.drop_first();
        assert forall|j: int| 0 <= j < t.len() implies t[j] != c by {
            assert(t[j] == s[j + 1]);
        }
        lemma_split_first_none(t, c);
    }
}

/// Whether `s` starts with the tag `c:`.
fn starts_with_tag(s: &str, c: char) -> (b: bool)
    ensures
        b == has_tag(s@, c),
{
    let len = s.unicode_len();
    len >= 2 && s.get_char(0) == c && s.get_char(1) == ':'
}

/// The target named by the data of a selector line (see
/// [`spec_parse_selected_item`]); anything else is an invalid selection.
pub fn parse_selected_item(selected: &str) -> (res: Result<Target, TfocusError>)
    ensures
        match (res, spec_parse_selected_item(selected@)) {
            (Ok(t), Ok(v)) => t@ == v,
            (Err(e), Err(v)) => e@ == v,
            _ => false,
        },
{
    let len = selected.unicode_len();
    assert(len >= 2 ==> selected@.subrange(2, len as int) =~= selected@.skip(2));
    if starts_with_tag(selected, 'f') {
        Ok(Target::File(String::from_str(selected.substring_char(2, len))))
    } else if starts_with_tag(selected, 'm') {
        Ok(Target::Module(String::from_str(selected.substring_char(2, len))))
    } else if starts_with_tag(selected, 'r') {
        let rest = selected.substring_char(2, len);
        let rest_len = rest.unicode_len();
        let mut k: usize = 0;
        while k < rest_len
            invariant
                rest_len == rest@.len(),
                rest@ == selected@.skip(2),
                has_tag(selected@, 'r'),
                !has_tag(selected@, 'f'),
                !has_tag(selected@, 'm'),
                0 <= k <= rest_len,
                forall|j: int| 0 <= j < k ==> rest@[j] != '.',
            decreases rest_len - k,
        {
            if rest.get_char(k) == '.' {
                proof {
                    lemma_split_first_at(rest@, '.', k as int);
                    assert(rest@.subrange(0, k as int) =~= rest@.take(k as int));
                    assert(rest@.subrange(k + 1, rest_len as int) =~= rest@.skip(k + 1));
                }
                let resource_type = String::from_str(rest.substring_char(0, k));
                let name = String::from_str(rest.substring_char(k + 1, rest_len));
                return Ok(Target::Resource(resource_type, name));
            }
            k = k + 1;
        }
        proof {
            lemma_split_first_none(rest@, '.');
        }
        Err(TfocusError::InvalidTargetSelection)
    } else {
        Err(TfocusError::InvalidTargetSelection)
    }
}

/// The targets named by the data of the chosen lines, in order; fails with
/// the error of the first line that names none.
pub fn parse_selected_items(selected_items: &[String]) -> (res: Result<Vec<Target>, TfocusError>)
    ensures
        match res {
            Ok(ts) => {
                &&& ts@.len() == selected_items@.len()
                &&& forall|i: int|
                    0 <= i < ts@.len() ==> spec_parse_selected_item(selected_items@[i]@) == Ok::<
                        TargetView,
                        TfocusErrorView,
                    >(#[trigger] ts@[i]@)
            },
            Err(e) => exists|i: int|
                {
                    &&& 0 <= i < selected_items@.len()
                    &&& spec_parse_selected_item(#[trigger] selected_items@[i]@) == Err::<
                        TargetView,
                        TfocusErrorView,
                    >(e@)
                    &&& forall|j: int|
                        0 <= j < i ==> spec_parse_selected_item(selected_items@[j]@) is Ok
                },
        },
{
    let mut targets: Vec<Target> = Vec::new();
    let n = selected_items.len();
    for i in 0..n
        invariant
            n == selected_items@.len(),
            targets@.len() == i,
            forall|j: int|
                0 <= j < i ==> spec_parse_selected_item(selected_items@[j]@) == Ok::<
                    TargetView,
                    TfocusErrorView,
                >(#[trigger] targets@[j]@),
    {
        match parse_selected_item(selected_items[i].as_str()) {
            Ok(t) => targets.push(t),
            Err(e) => {
                assert(forall|j: int|
                    0 <= j < i ==> spec_parse_selected_item(selected_items@[j]@) is Ok) by {
                    assert forall|j: int| 0 <= j < i implies spec_parse_selected_item(
                        selected_items@[j]@,
                    ) is Ok by {
                        assert(spec_parse_selected_item(selected_items@[j]@) == Ok::<
                            TargetView,
                            TfocusErrorView,
                        >(targets@[j]@));
                    }
                }
                return Err(e);
            },
        }
    }
    Ok(targets)
}

/// The target a selection item stands for.
pub open spec fn item_target(item: SelectionItemView) -> TargetView {
    match item {
        SelectionItemView::File(_, p) => TargetView::File(p),
        SelectionItemView::Module(_, n) => TargetView::Module(n),
        SelectionItemView::Resource(_, r) => if r.is_module {
            TargetView::Module(r.name)
        } else {
            TargetView::Resource(r.resource_type, r.name)
        },
    }
}

/// Parsing the data of an item's selector line gives back the target the
/// item stands for, provided a resource's type holds no dot (Terraform
/// resource types never do).
pub proof fn lemma_selection_round_trip(item: SelectionItemView)
    requires
        match item {
            SelectionItemView::Resource(_, r) => r.is_module || !r.resource_type.contains('.'),
            _ => true,
        },
    ensures
        spec_parse_selected_item(selection_entry(item).data) == Ok::<TargetView, TfocusErrorView>(
            item_target(item),
        ),
{
    reveal_strlit("f:");
    reveal_strlit("m:");
    reveal_strlit("r:");
    reveal_strlit(".");
    match item {
        SelectionItemView::File(_, p) => {
            assert(("f:"@ + p).skip(2) =~= p);
        },
        SelectionItemView::Module(_, n) => {
            assert(("m:"@ + n).skip(2) =~= n);
        },
        SelectionItemView::Resource(_, r) => {
            if r.is_module {
                assert(("m:"@ + r.name).skip(2) =~= r.name);
            } else {
                let data = "r:"@ + r.resource_type + "."@ + r.name;
                let rest = data.skip(2);
                let k = r.resource_type.len() as int;
                assert(rest =~= r.resource_type + "."@ + r.name);
                assert forall|j: int| 0 <= j < k implies rest[j] != '.' by {
                    assert(rest[j] == r.resource_type[j]);
                }
                assert(rest[k] == '.');
                lemma_split_first_at(rest, '.', k);
                assert(rest.take(k) =~= r.resource_type);
                assert(rest.skip(k + 1) =~= r.name);
            }
        },
    }
}

/// The addresses of a sequence of resources.
pub open spec fn addresses(rs: Seq<ResourceView>) -> Seq<Seq<char>> {
    rs.map_values(|r: ResourceView| target_address(r))
}

/// `rs` without the resources whose address occurred earlier: the first
/// resource of each address, in order.
pub open spec fn dedup_by_address(rs: Seq<ResourceView>) -> Seq<ResourceView>
    decreases rs.len(),
{
    if rs.len() == 0 {
        seq![]
    } else {
        let d = dedup_by_address(rs.drop_last());
        if addresses(d).contains(target_address(rs.last())) {
            d
        } else {
            d.push(rs.last())
        }
    }
}

/// The resources with one resource per address: the first one met.
pub fn deduplicate_resources(resources: Vec<Resource>) -> (res: Vec<Resource>)
    ensures
        resources_view(res@) == dedup_by_address(resources_view(resources@)),
{
    let ghost rs = resources_view(resources@);
    let mut seen_targets: Vec<String> = Vec::new();
    let mut deduplicated: Vec<Resource> = Vec::new();
    let n = resources.len();
    assert(rs.take(0) =~= Seq::<ResourceView>::empty());
    assert(resources_view(deduplicated@) =~= Seq::<ResourceView>::empty());
    assert(strings_view(seen_targets@) =~= Seq::<Seq<char>>::empty());
    for i in 0..n
        invariant
            n == resources@.len(),
            rs == resources_view(resources@),
            resources_view(deduplicated@) == dedup_by_address(rs.take(i as int)),
            strings_view(seen_targets@) == addresses(resources_view(deduplicated@)),
    {
        let target = resources[i].target_string();
        assert(rs.take(i + 1).drop_last() =~= rs.take(i as int));
        assert(rs[i as int] == resources@[i as int]@);
        if !contains_string(&seen_targets, &target) {
            let ghost before_seen = strings_view(seen_targets@);
            let ghost before = resources_view(deduplicated@);
            seen_targets.push(target);
            deduplicated.push(resources[i].duplicate());
            assert(resources_view(deduplicated@) =~= before.push(rs[i as int]));
            assert(strings_view(seen_targets@) =~= before_seen.push(target_address(rs[i as int])));
            assert(addresses(resources_view(deduplicated@)) =~= addresses(before).push(
                target_address(rs[i as int]),
            ));
        }
    }
    assert(rs.take(n as int) =~= rs);
    deduplicated
}

proof fn lemma_addresses_push(s: Seq<ResourceView>, r: ResourceView)
    ensures
        addresses(s.push(r)) == addresses(s).push(target_address(r)),
        target_options_of(s.push(r)) == target_options_of(s).push(target_option(r)),
{
    assert(addresses(s.push(r)) =~= addresses(s).push(target_address(r)));
    assert(target_options_of(s.push(r)) =~= target_options_of(s).push(target_option(r)));
}

proof fn lemma_addresses_drop_last(s: Seq<ResourceView>)
    requires
        s.len() > 0,
    ensures
        addresses(s.drop_last()) == addresses(s).drop_last(),
        addresses(s).last() == target_address(s.last()),
        target_options_of(s.drop_last()) == target_options_of(s).drop_last(),
        target_options_of(s).last() == target_option(s.last()),
{
    assert(addresses(s.drop_last()) =~= addresses(s).drop_last());
    assert(target_options_of(s.drop_last()) =~= target_options_of(s).drop_last());
}

proof fn lemma_option_contains(s: Seq<ResourceView>, r: ResourceView)
    ensures
        target_options_of(s).contains(target_option(r)) <==> addresses(s).contains(
            target_address(r),
        ),
{
    let p = "-target="@;
    if target_options_of(s).contains(target_option(r)) {
        let k = choose|k: int|
            0 <= k < target_options_of(s).len() && target_options_of(s)[k] == target_option(r);
        assert((p + target_address(s[k])).skip(p.len() as int) =~= target_address(s[k]));
        assert((p + target_address(r)).skip(p.len() as int) =~= target_address(r));
        assert(addresses(s)[k] == target_address(r));
    }
    if addresses(s).contains(target_address(r)) {
        let k = choose|k: int| 0 <= k < addresses(s).len() && addresses(s)[k] == target_address(r);
        assert(target_options_of(s)[k] == target_option(r));
    }
}

proof fn lemma_dedup_by_address_shape(rs: Seq<ResourceView>)
    ensures
        addresses(dedup_by_address(rs)) == dedup_first(addresses(rs)),
        target_options_of(dedup_by_address(rs)) == dedup_first(target_options_of(rs)),
    decreases rs.len(),
{
    if rs.len() == 0 {
        assert(addresses(rs) =~= Seq::<Seq<char>>::empty());
        assert(target_options_of(rs) =~= Seq::<Seq<char>>::empty());
        assert(addresses(dedup_by_address(rs)) =~= Seq::<Seq<char>>::empty());
        assert(target_options_of(dedup_by_address(rs)) =~= Seq::<Seq<char>>::empty());
    } else {
        let p = rs.drop_last();
        let x = rs.last();
        lemma_dedup_by_address_shape(p);
        lemma_addresses_drop_last(rs);
        let d = dedup_by_address(p);
        lemma_option_contains(d, x);
        lemma_addresses_push(d, x);
    }
}

/// After deduplication every address occurs once, the addresses are
/// exactly those of the input, each kept resource is one of the input, and
/// deduplicating again changes nothing.
pub proof fn lemma_deduplicate_resources(rs: Seq<ResourceView>)
    ensures
        addresses(dedup_by_address(rs)).no_duplicates(),
        forall|a: Seq<char>|
            addresses(dedup_by_address(rs)).contains(a) <==> addresses(rs).contains(a),
        forall|r: ResourceView| dedup_by_address(rs).contains(r) ==> rs.contains(r),
        dedup_by_address(dedup_by_address(rs)) == dedup_by_address(rs),
{
    lemma_dedup_by_address_shape(rs);
    lemma_dedup_first(addresses(rs));
    lemma_dedup_subset(rs);
    lemma_dedup_by_address_distinct(dedup_by_address(rs));
}

proof fn lemma_dedup_subset(rs: Seq<ResourceView>)
    ensures
        forall|r: ResourceView| dedup_by_address(rs).contains(r) ==> rs.contains(r),
    decreases rs.len(),
{
    if rs.len() > 0 {
        let p = rs.drop_last();
        lemma_dedup_subset(p);
        let d = dedup_by_address(p);
        assert forall|r: ResourceView| dedup_by_address(rs).contains(r) implies rs.contains(r) by {
            if d.contains(r) {
                assert(p.contains(r));
                let k = choose|k: int| 0 <= k < p.len() && p[k] == r;
                assert(rs[k] == r);
            } else {
                let k = choose|k: int|
                    0 <= k < dedup_by_address(rs).len() && dedup_by_address(rs)[k] == r;
                if k < d.len() {
                    assert(d.push(rs.last())[k] == d[k]);
                }
                assert(rs[rs.len() - 1] == r);
            }
        }
    }
}

proof fn lemma_dedup_by_address_distinct(rs: Seq<ResourceView>)
    requires
        addresses(rs).no_duplicates(),
    ensures
        dedup_by_address(rs) == rs,
    decreases rs.len(),
{
    if rs.len() > 0 {
        let p = rs.drop_last();
        lemma_addresses_drop_last(rs);
        assert(addresses(p).no_duplicates()) by {
            assert forall|i: int, j: int|
                0 <= i < addresses(p).len() && 0 <= j < addresses(p).len() && i != j implies addresses(
                p,
            )[i] != addresses(p)[j] by {
                assert(addresses(p)[i] == addresses(rs)[i] && addresses(p)[j] == addresses(rs)[j]);
            }
        }
        lemma_dedup_by_address_distinct(p);
        if addresses(p).contains(target_address(rs.last())) {
            let k = choose|k: int|
                0 <= k < addresses(p).len() && addresses(p)[k] == target_address(rs.last());
            assert(addresses(rs)[k] == addresses(rs)[rs.len() - 1]);
        }
        assert(p.push(rs.last()) =~= rs);
    }
}

/// Deduplicating the resources first does not change the target options:
/// the options of the deduplicated resources are already the deduplicated
/// options of all resources, so `create_target_options` gives the same
/// result on both.
pub proof fn lemma_dedup_keeps_target_options(rs: Seq<ResourceView>)
    ensures
        target_options_of(dedup_by_address(rs)) == dedup_first(target_options_of(rs)),
        dedup_first(target_options_of(dedup_by_address(rs))) == dedup_first(
            target_options_of(rs),
        ),
{
    lemma_dedup_by_address_shape(rs);
    lemma_dedup_first(target_options_of(rs));
    lemma_dedup_first_distinct(dedup_first(target_options_of(rs)));
}

/// The project's resources that one chosen target designates.
pub fn collect_resources_for_target(project: &TerraformProject, target: &Target) -> (res: Vec<
    Resource,
>)
    ensures
        resources_view(res@) == select_matching(resources_view(project.resources@), target@),
{
    match target {
        Target::File(path) => project.get_resources_by_target(&Target::File(path.clone())),
        Target::Module(name) => project.get_resources_by_target(&Target::Module(name.clone())),
        Target::Resource(resource_type, name) => project.get_resources_by_target(
            &Target::Resource(resource_type.clone(), name.clone()),
        ),
    }
}

/// The resources designated by each target in turn, concatenated.
pub open spec fn collected(rs: Seq<ResourceView>, ts: Seq<TargetView>) -> Seq<ResourceView>
    decreases ts.len(),
{
    if ts.len() == 0 {
        seq![]
    } else {
        collected(rs, ts.drop_last()) + select_matching(rs, ts.last())
    }
}

/// The views of a sequence of targets.
pub open spec fn targets_view(ts: Seq<Target>) -> Seq<TargetView> {
    ts.map_values(|t: Target| t@)
}

/// The project's resources designated by the chosen targets, target by
/// target (a resource chosen twice appears twice).
pub fn collect_selected_resources(project: &TerraformProject, targets: &[Target]) -> (res: Vec<
    Resource,
>)
    ensures
        resources_view(res@) == collected(resources_view(project.resources@), targets_view(targets@)),
{
    let ghost rs = resources_view(project.resources@);
    let ghost ts = targets_view(targets@);
    let mut res: Vec<Resource> = Vec::new();
    let n = targets.len();
    assert(ts.take(0) =~= Seq::<TargetView>::empty());
    assert(resources_view(res@) =~= Seq::<ResourceView>::empty());
    for i in 0..n
        invariant
            n == targets@.len(),
            rs == resources_view(project.resources@),
            ts == targets_view(targets@),
            resources_view(res@) == collected(rs, ts.take(i as int)),
    {
        let mut found = collect_resources_for_target(project, &targets[i]);
        let ghost before = res@;
        let ghost more = found@;
        res.append(&mut found);
        assert(ts.take(i + 1).drop_last() =~= ts.take(i as int));
        assert(ts[i as int] == targets@[i as int]@);
        assert(resources_view(res@) =~= resources_view(before) + resources_view(more));
    }
    assert(ts.take(n as int) =~= ts);
    res
}

/// The operation to run: the one given on the command line; otherwise, in
/// non-interactive mode, an error; otherwise what `prompt` asks the user.
pub fn resolve_operation_with_prompt<F>(
    operation: Option<Operation>,
    non_interactive: bool,
    prompt: F,
) -> (res: Result<Operation, TfocusError>) where F: FnOnce() -> Result<Operation, TfocusError>
    requires
        operation is None && !non_interactive ==> call_requires(prompt, ()),
    ensures
        match operation {
            Some(op) => res == Ok::<Operation, TfocusError>(op),
            None => if non_interactive {
                match res {
                    Ok(_) => false,
                    Err(e) => e@ == TfocusErrorView::ParseError(
                        "In --non-interactive mode, --operation must be specified (plan or apply)"@,
                    ),
                }
            } else {
                call_ensures(prompt, (), res)
            },
        },
{
    if let Some(operation) = operation {
        return Ok(operation);
    }
    if non_interactive {
        return Err(
            TfocusError::ParseError(
                String::from_str(
                    "In --non-interactive mode, --operation must be specified (plan or apply)",
                ),
            ),
        );
    }
    prompt()
}

proof fn lemma_dedup_keeps_first(rs: Seq<ResourceView>)
    requires
        rs.len() > 0,
    ensures
        dedup_by_address(rs).len() > 0,
        dedup_by_address(rs)[0] == rs[0],
    decreases rs.len(),
{
    let p = rs.drop_last();
    if p.len() == 0 {
        assert(dedup_by_address(p) =~= Seq::<ResourceView>::empty());
        assert(addresses(dedup_by_address(p)) =~= Seq::<Seq<char>>::empty());
        assert(rs.last() == rs[0]);
    } else {
        lemma_dedup_keeps_first(p);
        assert(p[0] == rs[0]);
        let d = dedup_by_address(p);
        assert(d.push(rs.last())[0] == d[0]);
    }
}

/// A selection that passed the single-directory check still runs in one
/// directory after deduplication: the run is planned (it cannot fail for
/// mixed directories), in the directory of the first selected resource,
/// with the deduplicated target options of the whole selection.
pub proof fn lemma_checked_selection_runs_in_one_directory(rs: Seq<ResourceView>, op: Operation)
    requires
        rs.len() > 0,
        resource_dirs(rs).len() <= 1,
    ensures
        planned(dedup_by_address(rs), op) == Ok::<ExecutionPlanView, TfocusErrorView>(
            ExecutionPlanView {
                operation: op,
                target_options: dedup_first(target_options_of(rs)),
                working_dir: working_dir_of(rs[0].file_path),
            },
        ),
{
    let d = dedup_by_address(rs);
    lemma_dedup_keeps_first(rs);
    lemma_deduplicate_resources(rs);
    lemma_single_directory(rs);
    lemma_dedup_keeps_target_options(rs);
    let f = resource_files(rs);
    let fd = resource_files(d);
    assert(f[0] == rs[0].file_path);
    assert(fd[0] == d[0].file_path);
    assert forall|i: int| 1 <= i < fd.len() implies path_order(
        working_dir_of(#[trigger] fd[i]),
        working_dir_of(fd[0]),
    ) == 0 by {
        assert(fd[i] == d[i].file_path);
        assert(d.contains(d[i]));
        assert(rs.contains(d[i]));
        let k = choose|k: int| 0 <= k < rs.len() && rs[k] == d[i];
        if k == 0 {
            assert(addresses(d)[0] == addresses(d)[i]);
        }
        assert(f[k] == rs[k].file_path);
    }
    assert(same_directory(fd));
    lemma_single_directory(d);
}

/// A restriction of the selection list to one kind of entry (resources are
/// always listed).
#[derive(Clone, Copy, Debug, PartialEq, Eq, Structural)]
pub enum SelectionKind {
    File,
    Module,
}

/// Whether files are listed under the restriction `only`.
pub open spec fn lists_files(only: Option<SelectionKind>) -> bool {
    only is None || only == Some(SelectionKind::File)
}

/// Whether modules are listed under the restriction `only`.
pub open spec fn lists_modules(only: Option<SelectionKind>) -> bool {
    only is None || only == Some(SelectionKind::Module)
}

/// The files that are listed under `only`.
pub open spec fn listed_files(files: Seq<Seq<char>>, only: Option<SelectionKind>) -> Seq<Seq<char>> {
    if lists_files(only) {
        files
    } else {
        seq![]
    }
}

/// The modules that are listed under `only`.
pub open spec fn listed_modules(modules: Seq<Seq<char>>, only: Option<SelectionKind>) -> Seq<
    Seq<char>,
> {
    if lists_modules(only) {
        modules
    } else {
        seq![]
    }
}

/// The selection list: the listed files, then the listed modules, then all
/// resources, numbered consecutively from 1.
pub open spec fn numbered_items(
    files: Seq<Seq<char>>,
    modules: Seq<Seq<char>>,
    resources: Seq<ResourceView>,
    only: Option<SelectionKind>,
) -> Seq<SelectionItemView> {
    let fs = listed_files(files, only);
    let ms = listed_modules(modules, only);
    Seq::new(fs.len(), |i: int| SelectionItemView::File((i + 1) as nat, fs[i])) + Seq::new(
        ms.len(),
        |i: int| SelectionItemView::Module((fs.len() + i + 1) as nat, ms[i]),
    ) + Seq::new(
        resources.len(),
        |i: int| SelectionItemView::Resource((fs.len() + ms.len() + i + 1) as nat, resources[i]),
    )
}

/// The number an entry of the selection list shows.
pub open spec fn item_number(item: SelectionItemView) -> nat {
    match item {
        SelectionItemView::File(k, _) => k,
        SelectionItemView::Module(k, _) => k,
        SelectionItemView::Resource(k, _) => k,
    }
}

/// The selection list is numbered 1, 2, 3, … in order, so no two entries
/// share a number; it holds every listed file and module and every
/// resource, files first, then modules, then resources, each in the order
/// given.
pub proof fn lemma_numbering(
    files: Seq<Seq<char>>,
    modules: Seq<Seq<char>>,
    resources: Seq<ResourceView>,
    only: Option<SelectionKind>,
)
    ensures
        ({
            let items = numbered_items(files, modules, resources, only);
            let nf = if only is None || only == Some(SelectionKind::File) {
                files.len()
            } else {
                0
            };
            let nm = if only is None || only == Some(SelectionKind::Module) {
                modules.len()
            } else {
                0
            };
            &&& items.len() == nf + nm + resources.len()
            &&& forall|i: int| 0 <= i < items.len() ==> item_number(#[trigger] items[i]) == i + 1
            &&& forall|i: int, j: int|
                0 <= i < j < items.len() ==> item_number(#[trigger] items[i]) != item_number(
                    #[trigger] items[j],
                )
            &&& forall|i: int|
                0 <= i < nf ==> #[trigger] items[i] == SelectionItemView::File((i + 1) as nat, files[i])
            &&& forall|i: int|
                0 <= i < nm ==> #[trigger] items[nf + i] == SelectionItemView::Module(
                    (nf + i + 1) as nat,
                    modules[i],
                )
            &&& forall|i: int|
                0 <= i < resources.len() ==> #[trigger] items[nf + nm + i]
                    == SelectionItemView::Resource((nf + nm + i + 1) as nat, resources[i])
        }),
{
    let items = numbered_items(files, modules, resources, only);
    let fs = listed_files(files, only);
    let ms = listed_modules(modules, only);
    assert forall|i: int| 0 <= i < items.len() implies item_number(#[trigger] items[i]) == i + 1 by {
        if i < fs.len() {
        } else if i < fs.len() + ms.len() {
        } else {
        }
    }
    assert forall|i: int, j: int| 0 <= i < j < items.len() implies item_number(
        #[trigger] items[i],
    ) != item_number(#[trigger] items[j]) by {
        assert(item_number(items[i]) == i + 1);
        assert(item_number(items[j]) == j + 1);
    }
}

/// The entries of the selection list, numbered from 1: the files and the
/// modules of the project (each dropped when only the other kind is asked
/// for), then its resources.
pub fn numbered_selection_items(
    files: &[String],
    modules: &[String],
    resources: &[Resource],
    only: Option<SelectionKind>,
) -> (items: Vec<SelectionItem>)
    requires
        files@.len() + modules@.len() + resources@.len() < usize::MAX,
    ensures
        items@.len() == numbered_items(
            strings_view(files@),
            strings_view(modules@),
            resources_view(resources@),
            only,
        ).len(),
        forall|i: int|
            0 <= i < items@.len() ==> #[trigger] items@[i]@ == numbered_items(
                strings_view(files@),
                strings_view(modules@),
                resources_view(resources@),
                only,
            )[i],
        forall|i: int| 0 <= i < items@.len() ==> item_number(#[trigger] items@[i]@) == i + 1,
{
    proof {
        lemma_numbering(strings_view(files@), strings_view(modules@), resources_view(resources@), only);
    }
    let ghost fs = listed_files(strings_view(files@), only);
    let ghost ms = listed_modules(strings_view(modules@), only);
    let ghost rs = resources_view(resources@);
    let ghost all = numbered_items(strings_view(files@), strings_view(modules@), rs, only);
    let show_files = match only {
        None => true,
        Some(SelectionKind::File) => true,
        Some(SelectionKind::Module) => false,
    };
    let show_modules = match only {
        None => true,
        Some(SelectionKind::Module) => true,
        Some(SelectionKind::File) => false,
    };
    let mut items: Vec<SelectionItem> = Vec::new();
    let mut current_index: usize = 1;
    if show_files {
        let n = files.len();
        for i in 0..n
            invariant
                n == files@.len(),
                fs == strings_view(files@),
                files@.len() + modules@.len() + resources@.len() < usize::MAX,
                items@.len() == i,
                current_index == i + 1,
                forall|j: int|
                    0 <= j < i ==> #[trigger] items@[j]@ == SelectionItemView::File(
                        (j + 1) as nat,
                        fs[j],
                    ),
        {
            items.push(SelectionItem::File(current_index, files[i].clone()));
            current_index = current_index + 1;
        }
    }
    let nf = items.len();
    assert(nf == fs.len());
    if show_modules {
        let n = modules.len();
        for i in 0..n
            invariant
                n == modules@.len(),
                ms == strings_view(modules@),
                nf == fs.len(),
                nf <= files@.len(),
                files@.len() + modules@.len() + resources@.len() < usize::MAX,
                items@.len() == nf + i,
                current_index == nf + i + 1,
                forall|j: int|
                    0 <= j < nf ==> #[trigger] items@[j]@ == SelectionItemView::File(
                        (j + 1) as nat,
                        fs[j],
                    ),
                forall|j: int|
                    0 <= j < i ==> #[trigger] items@[nf + j]@ == SelectionItemView::Module(
                        (nf + j + 1) as nat,
                        ms[j],
                    ),
        {
            items.push(SelectionItem::Module(current_index, modules[i].clone()));
            current_index = current_index + 1;
        }
    }
    let nm = items.len() - nf;
    assert(nm == ms.len());
    let n = resources.len();
    for i in 0..n
        invariant
            n == resources@.len(),
            rs == resources_view(resources@),
            nf == fs.len(),
            nm == ms.len(),
            nf <= files@.len(),
            nm <= modules@.len(),
            files@.len() + modules@.len() + resources@.len() < usize::MAX,
            items@.len() == nf + nm + i,
            current_index == nf + nm + i + 1,
            forall|j: int|
                0 <= j < nf ==> #[trigger] items@[j]@ == SelectionItemView::File(
                    (j + 1) as nat,
                    fs[j],
                ),
            forall|j: int|
                0 <= j < nm ==> #[trigger] items@[nf + j]@ == SelectionItemView::Module(
                    (nf + j + 1) as nat,
                    ms[j],
                ),
            forall|j: int|
                0 <= j < i ==> #[trigger] items@[nf + nm + j]@ == SelectionItemView::Resource(
                    (nf + nm + j + 1) as nat,
                    rs[j],
                ),
    {
        items.push(SelectionItem::Resource(current_index, resources[i].duplicate()));
        current_index = current_index + 1;
    }
    assert forall|i: int| 0 <= i < items@.len() implies #[trigger] items@[i]@ == all[i] by {
        if i < nf {
            assert(items@[i]@ == SelectionItemView::File((i + 1) as nat, fs[i]));
        } else if i < nf + nm {
            assert(items@[nf + (i - nf)]@ == SelectionItemView::Module(
                (nf + (i - nf) + 1) as nat,
                ms[i - nf],
            ));
        } else {
            assert(items@[nf + nm + (i - nf - nm)]@ == SelectionItemView::Resource(
                (nf + nm + (i - nf - nm) + 1) as nat,
                rs[i - nf - nm],
            ));
        }
    }
    items
}

/// Whether every chosen line names a target.
pub open spec fn all_parse(ss: Seq<Seq<char>>) -> bool {
    forall|i: int| 0 <= i < ss.len() ==> (#[trigger] spec_parse_selected_item(ss[i])) is Ok
}

/// The targets the chosen lines name (meaningful when they all name one).
pub open spec fn parsed_targets(ss: Seq<Seq<char>>) -> Seq<TargetView> {
    ss.map_values(
        |s: Seq<char>|
            match spec_parse_selected_item(s) {
                Ok(t) => t,
                Err(_) => TargetView::File(seq![]),
            },
    )
}

/// The resources to run Terraform on, from the data of the chosen lines:
/// the targets they name (the first line naming none is an error), the
/// project's resources for those targets, checked to lie in one directory
/// before duplicates are removed, then one resource per address. An empty
/// result means nothing was found.
pub fn resources_for_selection(project: &TerraformProject, selected_items: &[String]) -> (res:
    Result<Vec<Resource>, TfocusError>)
    ensures
        !all_parse(strings_view(selected_items@)) ==> match res {
            Ok(_) => false,
            Err(e) => exists|i: int|
                {
                    &&& 0 <= i < selected_items@.len()
                    &&& spec_parse_selected_item(#[trigger] selected_items@[i]@) == Err::<
                        TargetView,
                        TfocusErrorView,
                    >(e@)
                    &&& forall|j: int|
                        0 <= j < i ==> spec_parse_selected_item(selected_items@[j]@) is Ok
                },
        },
        all_parse(strings_view(selected_items@)) ==> ({
            let c = collected(
                resources_view(project.resources@),
                parsed_targets(strings_view(selected_items@)),
            );
            &&& lists_directories_of(resource_dirs(c), resource_files(c))
            &&& if resource_dirs(c).len() > 1 {
                match res {
                    Ok(_) => false,
                    Err(e) => e@ == TfocusErrorView::MixedWorkingDirectories(resource_dirs(c)),
                }
            } else {
                match res {
                    Ok(v) => resources_view(v@) == dedup_by_address(c),
                    Err(_) => false,
                }
            }
        }),
        match res {
            Ok(v) => v@.len() > 0 ==> forall|op: Operation|
                #[trigger] planned(resources_view(v@), op) is Ok,
            Err(_) => true,
        },
{
    let ghost ss = strings_view(selected_items@);
    let targets = match parse_selected_items(selected_items) {
        Ok(t) => t,
        Err(e) => {
            proof {
                if all_parse(ss) {
                    let i = choose|i: int|
                        {
                            &&& 0 <= i < selected_items@.len()
                            &&& spec_parse_selected_item(#[trigger] selected_items@[i]@) == Err::<
                                TargetView,
                                TfocusErrorView,
                            >(e@)
                            &&& forall|j: int|
                                0 <= j < i ==> spec_parse_selected_item(selected_items@[j]@) is Ok
                        };
                    assert(ss[i] == selected_items@[i]@);
                }
            }
            return Err(e);
        },
    };
    proof {
        assert forall|i: int| 0 <= i < ss.len() implies (#[trigger] spec_parse_selected_item(
            ss[i],
        )) is Ok by {
            assert(ss[i] == selected_items@[i]@);
            assert(spec_parse_selected_item(selected_items@[i]@) == Ok::<
                TargetView,
                TfocusErrorView,
            >(targets@[i]@));
        }
        assert forall|i: int| 0 <= i < ss.len() implies #[trigger] parsed_targets(ss)[i]
            == targets_view(targets@)[i] by {
            assert(ss[i] == selected_items@[i]@);
            assert(spec_parse_selected_item(selected_items@[i]@) == Ok::<
                TargetView,
                TfocusErrorView,
            >(targets@[i]@));
        }
        assert(parsed_targets(ss) =~= targets_view(targets@));
    }
    let selected_resources = collect_selected_resources(project, &targets);
    match validate_single_working_directory(&selected_resources) {
        Ok(()) => {},
        Err(e) => return Err(e),
    }
    let resources = deduplicate_resources(selected_resources);
    proof {
        let c = resources_view(selected_resources@);
        if c.len() > 0 {
            assert forall|op: Operation| #[trigger]
                planned(resources_view(resources@), op) is Ok by {
                lemma_checked_selection_runs_in_one_directory(c, op);
            }
        } else {
            assert(c =~= Seq::<ResourceView>::empty());
            assert(dedup_by_address(c) =~= Seq::<ResourceView>::empty());
        }
    }
    Ok(resources)
}

} // verus!
