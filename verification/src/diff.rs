//! Comparison of two call trees.
use crate::model::{
    copy_site, node_models, optional_site, CallLabel, CallNode, CallRelation, CallSiteId,
    LabelModel, NodeModel,
};
use crate::text::{
    chars_of, concat_texts, contains, contains_text, find_chars, find_from, find_from_is_first,
    same_text, slice_text,
};
use vstd::prelude::*;

verus! {

/// What became of a node between the two trees.
#[derive(Clone, Copy, Debug, PartialEq, Eq, Structural)]
pub enum DiffStatus {
    Same,
    Added,
    Removed,
    Modified,
}

/// A node of the comparison of two call trees.
#[derive(Debug, PartialEq, Eq)]
pub struct DiffNode {
    pub key: String,
    pub callsite: Option<CallSiteId>,
    pub label: CallLabel,
    pub relation: CallRelation,
    /// The label before, where label or relation changed.
    pub before_label: Option<CallLabel>,
    /// The relation before, where it changed.
    pub before_relation: Option<CallRelation>,
    pub status: DiffStatus,
    pub children: Vec<DiffNode>,
}

#[verifier::ext_equal]
pub struct DiffModel {
    pub key: Seq<char>,
    pub callsite: Option<Seq<char>>,
    pub label: LabelModel,
    pub relation: CallRelation,
    pub before_label: Option<LabelModel>,
    pub before_relation: Option<CallRelation>,
    pub status: DiffStatus,
    pub children: Seq<DiffModel>,
}

/// The model of an optional label.
pub open spec fn optional_label(label: Option<CallLabel>) -> Option<LabelModel> {
    match label {
        Some(label) => Some(label@),
        None => None,
    }
}

/// The model of a node of a comparison.
pub open spec fn diff_model(node: DiffNode) -> DiffModel
    decreases node,
{
    DiffModel {
        key: node.key@,
        callsite: optional_site(node.callsite),
        label: node.label@,
        relation: node.relation,
        before_label: optional_label(node.before_label),
        before_relation: node.before_relation,
        status: node.status,
        children: Seq::new(
            node.children@.len(),
            |index: int|
                if 0 <= index < node.children@.len() {
                    diff_model(node.children@[index])
                } else {
                    arbitrary()
                },
        ),
    }
}

impl View for DiffNode {
    type V = DiffModel;

    open spec fn view(&self) -> DiffModel {
        diff_model(*self)
    }
}

/// The models of a list of nodes.
pub open spec fn diff_models(nodes: Seq<DiffNode>) -> Seq<DiffModel> {
    nodes.map_values(|node: DiffNode| node@)
}

impl Clone for DiffNode {
    fn clone(&self) -> (result: Self)
        ensures
            result@ == self@,
        decreases self,
    {
        let mut children: Vec<DiffNode> = Vec::new();
        let mut index: usize = 0;
        while index < self.children.len()
            invariant
                index <= self.children@.len(),
                children@.len() == index,
                forall|k: int| 0 <= k < index ==> (#[trigger] children@[k])@ == self.children@[k]@,
            decreases self.children@.len() - index,
        {
            let child = &self.children[index];
            assert(decreases_to!(self => child));
            children.push(child.clone());
            index += 1;
        }
        let result = DiffNode {
            key: self.key.clone(),
            callsite: copy_site(&self.callsite),
            label: self.label.clone(),
            relation: self.relation,
            before_label: match &self.before_label {
                Some(label) => Some(label.clone()),
                None => None,
            },
            before_relation: self.before_relation,
            status: self.status,
            children,
        };
        proof {
            assert(result@.children =~= self@.children);
        }
        result
    }
}

/// A semantic key from `start` on, with the location taken out of each
/// `{lambda:..}`.
pub open spec fn normal_key_from(key: Seq<char>, start: nat) -> Seq<char>
    decreases key.len() + 1 - start,
{
    match find_from(key, "{lambda:"@, start as int) {
        None => key.skip(start as int),
        Some(open) => {
            proof {
                find_from_is_first(key, "{lambda:"@, start as int);
                find_from_is_first(key, "}"@, open);
                reveal_strlit("}");
            }
            key.subrange(start as int, open) + "{lambda}"@ + match find_from(key, "}"@, open) {
                None => key.skip(open),
                Some(close) => normal_key_from(key, (close + 1) as nat),
            }
        },
    }
}

/// A semantic key with the location taken out of each `{lambda:..}`.
pub open spec fn normal_key(key: Seq<char>) -> Seq<char> {
    normal_key_from(key, 0)
}

/// Whether two semantic keys differ at most in where their lambdas stand.
pub open spec fn keys_equivalent(before: Seq<char>, after: Seq<char>) -> bool {
    normal_key(before) == normal_key(after)
}

/// Whether a character is a decimal digit of ASCII.
pub open spec fn is_ascii_digit(character: char) -> bool {
    '0' <= character <= '9'
}

/// The first place at or after `start` where no decimal digit stands.
pub open spec fn after_digits(text: Seq<char>, start: int) -> int
    decreases text.len() - start,
{
    if 0 <= start < text.len() && is_ascii_digit(text[start]) {
        after_digits(text, start + 1)
    } else {
        start
    }
}

/// Skipping digits does not step back, nor over the end.
pub proof fn after_digits_is_not_before(text: Seq<char>, start: int)
    ensures
        start <= after_digits(text, start),
        start <= text.len() ==> after_digits(text, start) <= text.len(),
    decreases text.len() - start,
{
    if 0 <= start < text.len() && is_ascii_digit(text[start]) {
        after_digits_is_not_before(text, start + 1);
    }
}

/// A label from `start` on, with the number taken out of each `λ#..`.
pub open spec fn normal_label_from(label: Seq<char>, start: nat) -> Seq<char>
    decreases label.len() + 1 - start,
{
    match find_from(label, "λ#"@, start as int) {
        None => label.skip(start as int),
        Some(index) => {
            proof {
                find_from_is_first(label, "λ#"@, start as int);
                reveal_strlit("λ#");
                after_digits_is_not_before(label, index + 2);
            }
            label.subrange(start as int, index + 2) + normal_label_from(
                label,
                after_digits(label, index + 2) as nat,
            )
        },
    }
}

/// A label with the number taken out of each `λ#..`.
pub open spec fn normal_label(label: Seq<char>) -> Seq<char> {
    normal_label_from(label, 0)
}

/// Whether two labels differ at most in the numbers of their lambdas.
pub open spec fn equal_labels(before: Seq<char>, after: Seq<char>) -> bool {
    normal_label(before) == normal_label(after)
}

/// Whether two trees differ at most in where their lambdas stand.
pub open spec fn equal_trees(before: NodeModel, after: NodeModel) -> bool
    decreases before,
{
    &&& keys_equivalent(before.key, after.key)
    &&& equal_labels(before.label.default, after.label.default)
    &&& before.relation == after.relation
    &&& before.children.len() == after.children.len()
    &&& forall|index: int| #![trigger before.children[index]]
        0 <= index < before.children.len() ==> equal_trees(
            before.children[index],
            after.children[index],
        )
}

/// Whether the children of two nodes pair up by key and label.
pub open spec fn equal_children(before: NodeModel, after: NodeModel) -> bool {
    &&& before.children.len() == after.children.len()
    &&& forall|index: int| #![trigger before.children[index]]
        0 <= index < before.children.len() ==> keys_equivalent(
            before.children[index].key,
            after.children[index].key,
        ) && equal_labels(
            before.children[index].label.default,
            after.children[index].label.default,
        )
}

/// How well the descendants of two nodes pair up, down to `depth` levels.
pub open spec fn descendant_weight(before: NodeModel, after: NodeModel, depth: nat) -> nat
    decreases depth, 1nat, 0nat,
{
    if depth == 0 || before.children.len() != after.children.len() {
        0
    } else {
        children_weight(before.children, after.children, depth, before.children.len())
    }
}

/// How well the first `count` of two lists of children pair up.
pub open spec fn children_weight(
    before: Seq<NodeModel>,
    after: Seq<NodeModel>,
    depth: nat,
    count: nat,
) -> nat
    decreases depth, 0nat, count,
{
    if depth == 0 || count == 0 {
        0
    } else {
        let index = count - 1;
        children_weight(before, after, depth, (count - 1) as nat) + child_weight(
            before[index],
            after[index],
            depth,
        )
    }
}

/// How well one child of each side pairs up.
pub open spec fn child_weight(before: NodeModel, after: NodeModel, depth: nat) -> nat
    decreases depth, 0nat, 0nat,
{
    if depth == 0 || !keys_equivalent(before.key, after.key) {
        0
    } else {
        let label: nat = if equal_labels(before.label.default, after.label.default) {
            10
        } else {
            0
        };
        10 + label + descendant_weight(before, after, (depth - 1) as nat)
    }
}

/// The smaller of two numbers.
pub open spec fn smaller(left: nat, right: nat) -> nat {
    if left <= right {
        left
    } else {
        right
    }
}

/// The larger of two numbers.
pub open spec fn larger(left: nat, right: nat) -> nat {
    if left >= right {
        left
    } else {
        right
    }
}

/// How much it is worth to pair two calls; calls of different targets are not
/// paired at all. Unchanged labels and an unchanged shape of what is called
/// count most. Where a call stands does not count.
pub open spec fn pair_weight(before: NodeModel, after: NodeModel) -> Option<nat> {
    if !keys_equivalent(before.key, after.key) {
        None
    } else {
        let label: nat = if before.label.default == after.label.default && !contains(
            before.label.default,
            "λ#"@,
        ) {
            100
        } else if equal_labels(before.label.default, after.label.default) {
            80
        } else {
            0
        };
        let relation: nat = if before.relation == after.relation {
            5
        } else {
            0
        };
        let shape: nat = if equal_children(before, after) {
            25
        } else {
            0
        };
        Some(10 + label + relation + shape + smaller(descendant_weight(before, after, 2), 100))
    }
}

/// The best total weight of pairing what is left of two lists, in order.
pub open spec fn best_score(
    before: Seq<NodeModel>,
    after: Seq<NodeModel>,
    i: nat,
    j: nat,
) -> nat
    decreases before.len() - i + after.len() - j,
{
    if i >= before.len() || j >= after.len() {
        0
    } else {
        let paired = match pair_weight(before[i as int], after[j as int]) {
            Some(weight) => best_score(before, after, i + 1, j + 1) + weight,
            None => 0,
        };
        larger(
            larger(paired, best_score(before, after, i + 1, j)),
            best_score(before, after, i, j + 1),
        )
    }
}

/// Whether `before[i]` and `after[j]` are paired: they can be, and a best
/// pairing of what is left begins with them.
pub open spec fn pairs_up(before: Seq<NodeModel>, after: Seq<NodeModel>, i: nat, j: nat) -> bool {
    match pair_weight(before[i as int], after[j as int]) {
        Some(weight) => best_score(before, after, i + 1, j + 1) + weight == best_score(
            before,
            after,
            i,
            j,
        ),
        None => false,
    }
}

/// A whole tree with one status.
pub open spec fn marked(node: NodeModel, status: DiffStatus) -> DiffModel
    decreases node,
{
    DiffModel {
        key: node.key,
        callsite: node.callsite,
        label: node.label,
        relation: node.relation,
        before_label: None,
        before_relation: None,
        status,
        children: Seq::new(
            node.children.len(),
            |index: int|
                if 0 <= index < node.children.len() {
                    marked(node.children[index], status)
                } else {
                    arbitrary()
                },
        ),
    }
}

/// The comparison of two trees whose roots are the same call.
pub open spec fn compared(before: NodeModel, after: NodeModel) -> DiffModel
    decreases before, 0nat,
{
    let same_label = equal_labels(before.label.default, after.label.default);
    let same_relation = before.relation == after.relation;
    DiffModel {
        key: after.key,
        callsite: after.callsite,
        label: after.label,
        relation: after.relation,
        before_label: if same_label && same_relation {
            None
        } else {
            Some(before.label)
        },
        before_relation: if same_relation {
            None
        } else {
            Some(before.relation)
        },
        status: if same_label && same_relation {
            DiffStatus::Same
        } else {
            DiffStatus::Modified
        },
        children: if equal_lists(before.children, after.children) {
            Seq::new(
                before.children.len(),
                |index: int|
                    if 0 <= index < before.children.len() {
                        compared(before.children[index], after.children[index])
                    } else {
                        arbitrary()
                    },
            )
        } else {
            aligned(before.children, after.children, 0, 0)
        },
    }
}

/// Whether two lists of trees differ at most in where their lambdas stand.
pub open spec fn equal_lists(before: Seq<NodeModel>, after: Seq<NodeModel>) -> bool {
    &&& before.len() == after.len()
    &&& forall|index: int| #![trigger before[index]]
        0 <= index < before.len() ==> equal_trees(before[index], after[index])
}

/// How much of `length` is left behind `index`.
pub open spec fn left_over(length: nat, index: nat) -> nat {
    if index < length {
        (length - index) as nat
    } else {
        0
    }
}

/// The comparison of two lists of calls from `i` and `j` on: calls are paired
/// along a best pairing; of the others, those before come first on a tie.
pub open spec fn aligned(
    before: Seq<NodeModel>,
    after: Seq<NodeModel>,
    i: nat,
    j: nat,
) -> Seq<DiffModel>
    decreases before, left_over(before.len(), i) + left_over(after.len(), j),
{
    if i < before.len() && j < after.len() {
        if pairs_up(before, after, i, j) {
            seq![compared(before[i as int], after[j as int])] + aligned(before, after, i + 1, j + 1)
        } else if best_score(before, after, i + 1, j) >= best_score(before, after, i, j + 1) {
            seq![marked(before[i as int], DiffStatus::Removed)] + aligned(before, after, i + 1, j)
        } else {
            seq![marked(after[j as int], DiffStatus::Added)] + aligned(before, after, i, j + 1)
        }
    } else if i < before.len() {
        seq![marked(before[i as int], DiffStatus::Removed)] + aligned(before, after, i + 1, j)
    } else if j < after.len() {
        seq![marked(after[j as int], DiffStatus::Added)] + aligned(before, after, i, j + 1)
    } else {
        Seq::empty()
    }
}

/// The comparison of two trees, either of which may be missing.
pub open spec fn compared_optional(
    before: Option<NodeModel>,
    after: Option<NodeModel>,
) -> Option<DiffModel> {
    match (before, after) {
        (Some(before), Some(after)) => Some(compared(before, after)),
        (Some(before), None) => Some(marked(before, DiffStatus::Removed)),
        (None, Some(after)) => Some(marked(after, DiffStatus::Added)),
        (None, None) => None,
    }
}

/// Whether anything in a comparison changed.
pub open spec fn has_changes(node: DiffModel) -> bool
    decreases node,
{
    node.status != DiffStatus::Same || exists|index: int| #![trigger node.children[index]]
        0 <= index < node.children.len() && has_changes(node.children[index])
}

fn semantic_keys_equivalent(before: &str, after: &str) -> (result: bool)
    ensures
        result == keys_equivalent(before@, after@),
{
    same_text(
        normalize_anonymous_lambda_keys(before).as_str(),
        normalize_anonymous_lambda_keys(after).as_str(),
    )
}

fn normalize_anonymous_lambda_keys(key: &str) -> (result: String)
    ensures
        result@ == normal_key(key@),
{
    let characters = chars_of(key);
    let pattern = chars_of("{lambda:");
    let brace = chars_of("}");
    proof {
        reveal_strlit("}");
    }
    let mut normalized = String::new();
    let length: usize = characters.len();
    let mut start: usize = 0;
    loop
        invariant
            start <= length == characters@.len(),
            characters@ == key@,
            pattern@ == "{lambda:"@,
            brace@ == "}"@,
            "}"@.len() == 1,
            normalized@ + normal_key_from(key@, start as nat) == normal_key(key@),
        decreases characters@.len() + 1 - start,
    {
        let open: usize = match find_chars(characters.as_slice(), pattern.as_slice(), start) {
            Some(open) => open,
            None => {
                normalized.append(
                    slice_text(characters.as_slice(), start, characters.len()).as_str(),
                );
                proof {
                    assert(key@.subrange(start as int, key@.len() as int) =~= key@.skip(
                        start as int,
                    ));
                }
                return normalized;
            },
        };
        let ghost before = normalized@;
        normalized.append(slice_text(characters.as_slice(), start, open).as_str());
        normalized.append("{lambda}");
        let ghost middle = key@.subrange(start as int, open as int) + "{lambda}"@;
        proof {
            assert(normalized@ =~= before + middle);
        }
        match find_chars(characters.as_slice(), brace.as_slice(), open) {
            None => {
                normalized.append(
                    slice_text(characters.as_slice(), open, characters.len()).as_str(),
                );
                proof {
                    assert(key@.subrange(open as int, key@.len() as int) =~= key@.skip(
                        open as int,
                    ));
                    assert(normalized@ =~= before + (middle + key@.skip(open as int)));
                }
                return normalized;
            },
            Some(close) => {
                proof {
                    assert(before + (middle + normal_key_from(key@, (close + 1) as nat))
                        =~= normalized@ + normal_key_from(key@, (close + 1) as nat));
                }
                start = close + 1;
            },
        }
    }
}

fn labels_equivalent(before: &str, after: &str) -> (result: bool)
    ensures
        result == equal_labels(before@, after@),
{
    same_text(
        normalize_anonymous_lambdas(before).as_str(),
        normalize_anonymous_lambdas(after).as_str(),
    )
}

fn digits_end(characters: &[char], start: usize) -> (result: usize)
    requires
        start <= characters@.len(),
    ensures
        start <= result <= characters@.len(),
        result == after_digits(characters@, start as int),
{
    let mut index: usize = start;
    while index < characters.len() && '0' <= characters[index] && characters[index] <= '9'
        invariant
            start <= index <= characters@.len(),
            after_digits(characters@, index as int) == after_digits(characters@, start as int),
        decreases characters@.len() - index,
    {
        index += 1;
    }
    index
}

fn normalize_anonymous_lambdas(label: &str) -> (result: String)
    ensures
        result@ == normal_label(label@),
{
    let characters = chars_of(label);
    let pattern = chars_of("λ#");
    proof {
        reveal_strlit("λ#");
    }
    let mut normalized = String::new();
    let mut start: usize = 0;
    loop
        invariant
            start <= characters@.len(),
            characters@ == label@,
            pattern@ == "λ#"@,
            "λ#"@.len() == 2,
            normalized@ + normal_label_from(label@, start as nat) == normal_label(label@),
        decreases characters@.len() + 1 - start,
    {
        let index: usize = match find_chars(characters.as_slice(), pattern.as_slice(), start) {
            Some(index) => index,
            None => {
                normalized.append(
                    slice_text(characters.as_slice(), start, characters.len()).as_str(),
                );
                proof {
                    assert(label@.subrange(start as int, label@.len() as int) =~= label@.skip(
                        start as int,
                    ));
                }
                return normalized;
            },
        };
        let ghost before = normalized@;
        let tail: usize = index + 2;
        normalized.append(slice_text(characters.as_slice(), start, tail).as_str());
        let next: usize = digits_end(characters.as_slice(), tail);
        proof {
            let piece = label@.subrange(start as int, tail as int);
            assert(before + (piece + normal_label_from(label@, next as nat)) =~= normalized@
                + normal_label_from(label@, next as nat));
        }
        start = next;
    }
}

fn nodes_equivalent(before: &CallNode, after: &CallNode) -> (result: bool)
    ensures
        result == equal_trees(before@, after@),
    decreases before,
{
    if !semantic_keys_equivalent(before.key.as_str(), after.key.as_str()) || !labels_equivalent(
        before.label.default.as_str(),
        after.label.default.as_str(),
    ) || before.relation != after.relation || before.children.len() != after.children.len() {
        return false;
    }
    let mut index: usize = 0;
    while index < before.children.len()
        invariant
            index <= before.children@.len(),
            before.children@.len() == after.children@.len(),
            forall|k: int| #![trigger before@.children[k]]
                0 <= k < index ==> equal_trees(before@.children[k], after@.children[k]),
        decreases before.children@.len() - index,
    {
        let left = &before.children[index];
        let right = &after.children[index];
        assert(decreases_to!(before => left));
        if !nodes_equivalent(left, right) {
            proof {
                assert(!equal_trees(before@.children[index as int], after@.children[index as int]));
            }
            return false;
        }
        index += 1;
    }
    true
}

fn same_shallow_children(before: &CallNode, after: &CallNode) -> (result: bool)
    ensures
        result == equal_children(before@, after@),
{
    if before.children.len() != after.children.len() {
        return false;
    }
    let mut index: usize = 0;
    while index < before.children.len()
        invariant
            index <= before.children@.len(),
            before.children@.len() == after.children@.len(),
            forall|k: int| #![trigger before@.children[k]]
                0 <= k < index ==> keys_equivalent(
                    before@.children[k].key,
                    after@.children[k].key,
                ) && equal_labels(
                    before@.children[k].label.default,
                    after@.children[k].label.default,
                ),
        decreases before.children@.len() - index,
    {
        let left = &before.children[index];
        let right = &after.children[index];
        assert(before@.children[index as int] == left@);
        assert(after@.children[index as int] == right@);
        if !semantic_keys_equivalent(left.key.as_str(), right.key.as_str()) || !labels_equivalent(
            left.label.default.as_str(),
            right.label.default.as_str(),
        ) {
            return false;
        }
        index += 1;
    }
    true
}

/// The weight of the descendants, or 100 where it is more.
fn matching_descendant_weight(before: &CallNode, after: &CallNode, depth: usize) -> (result: usize)
    ensures
        result == smaller(descendant_weight(before@, after@, depth as nat), 100),
    decreases depth,
{
    if depth == 0 || before.children.len() != after.children.len() {
        return 0;
    }
    let mut total: usize = 0;
    let mut index: usize = 0;
    while index < before.children.len()
        invariant
            index <= before.children@.len(),
            before.children@.len() == after.children@.len(),
            depth > 0,
            total == smaller(
                children_weight(
                    before@.children,
                    after@.children,
                    depth as nat,
                    index as nat,
                ),
                100,
            ),
        decreases before.children@.len() - index,
    {
        let left = &before.children[index];
        let right = &after.children[index];
        assert(before@.children[index as int] == left@);
        assert(after@.children[index as int] == right@);
        proof {
            let weight = children_weight(
                before@.children,
                after@.children,
                depth as nat,
                index as nat,
            );
            assert(children_weight(
                before@.children,
                after@.children,
                depth as nat,
                (index + 1) as nat,
            ) == weight + child_weight(left@, right@, depth as nat));
        }
        if semantic_keys_equivalent(left.key.as_str(), right.key.as_str()) {
            let label: usize = if labels_equivalent(
                left.label.default.as_str(),
                right.label.default.as_str(),
            ) {
                10
            } else {
                0
            };
            let below: usize = matching_descendant_weight(left, right, depth - 1);
            total += 10 + label + below;
            if total > 100 {
                total = 100;
            }
        }
        index += 1;
    }
    total
}

fn alignment_weight(before: &CallNode, after: &CallNode) -> (result: Option<u128>)
    ensures
        match result {
            Some(weight) => pair_weight(before@, after@) == Some(weight as nat) && weight <= 240,
            None => pair_weight(before@, after@) is None,
        },
{
    if !semantic_keys_equivalent(before.key.as_str(), after.key.as_str()) {
        return None;
    }
    let mut weight: u128 = 10;
    if same_text(before.label.default.as_str(), after.label.default.as_str()) && !contains_text(
        before.label.default.as_str(),
        "λ#",
    ) {
        weight += 100;
    } else if labels_equivalent(before.label.default.as_str(), after.label.default.as_str()) {
        weight += 80;
    }
    if before.relation == after.relation {
        weight += 5;
    }
    if same_shallow_children(before, after) {
        weight += 25;
    }
    weight += matching_descendant_weight(before, after, 2) as u128;
    Some(weight)
}

fn mark_tree(node: &CallNode, status: DiffStatus) -> (result: DiffNode)
    ensures
        result@ == marked(node@, status),
    decreases node,
{
    let mut children: Vec<DiffNode> = Vec::new();
    let mut index: usize = 0;
    while index < node.children.len()
        invariant
            index <= node.children@.len(),
            children@.len() == index,
            forall|k: int|
                0 <= k < index ==> (#[trigger] children@[k])@ == marked(node@.children[k], status),
        decreases node.children@.len() - index,
    {
        let child = &node.children[index];
        assert(decreases_to!(node => child));
        children.push(mark_tree(child, status));
        index += 1;
    }
    let result = DiffNode {
        key: node.key.clone(),
        callsite: copy_site(&node.callsite),
        label: node.label.clone(),
        relation: node.relation,
        before_label: None,
        before_relation: None,
        status,
        children,
    };
    proof {
        assert(result@.children =~= marked(node@, status).children);
    }
    result
}

/// The comparison of two trees, either of which may be missing.
pub fn diff_optional(before: Option<&CallNode>, after: Option<&CallNode>) -> (result: Option<
    DiffNode,
>)
    ensures
        optional_diff(result) == compared_optional(optional_node(before), optional_node(after)),
{
    match (before, after) {
        (Some(before), Some(after)) => Some(diff_node(before, after)),
        (Some(before), None) => Some(mark_tree(before, DiffStatus::Removed)),
        (None, Some(after)) => Some(mark_tree(after, DiffStatus::Added)),
        (None, None) => None,
    }
}

/// The model of an optional tree.
pub open spec fn optional_node(node: Option<&CallNode>) -> Option<NodeModel> {
    match node {
        Some(node) => Some(node@),
        None => None,
    }
}

/// The model of an optional comparison.
pub open spec fn optional_diff(node: Option<DiffNode>) -> Option<DiffModel> {
    match node {
        Some(node) => Some(node@),
        None => None,
    }
}

fn diff_node(before: &CallNode, after: &CallNode) -> (result: DiffNode)
    ensures
        result@ == compared(before@, after@),
    decreases before, 1nat,
{
    let same_label = labels_equivalent(
        before.label.default.as_str(),
        after.label.default.as_str(),
    );
    let same_relation = before.relation == after.relation;
    proof {
        assert(decreases_to!(before => before.children));
    }
    let children = diff_children(&before.children, &after.children);
    let result = DiffNode {
        key: after.key.clone(),
        callsite: copy_site(&after.callsite),
        label: after.label.clone(),
        relation: after.relation,
        before_label: if same_label && same_relation {
            None
        } else {
            Some(before.label.clone())
        },
        before_relation: if same_relation {
            None
        } else {
            Some(before.relation)
        },
        status: if same_label && same_relation {
            DiffStatus::Same
        } else {
            DiffStatus::Modified
        },
        children,
    };
    proof {
        before.children_view();
        after.children_view();
        assert(result@.children =~= diff_models(result.children@));
        assert(result@.children =~= compared(before@, after@).children);
    }
    result
}

/// The comparison of two lists of calls.
pub open spec fn compared_lists(before: Seq<NodeModel>, after: Seq<NodeModel>) -> Seq<DiffModel> {
    if equal_lists(before, after) {
        Seq::new(before.len(), |index: int| compared(before[index], after[index]))
    } else {
        aligned(before, after, 0, 0)
    }
}

/// A pairing is worth at most 240 for each call before.
proof fn score_bound(before: Seq<NodeModel>, after: Seq<NodeModel>, i: nat, j: nat)
    ensures
        i <= before.len() ==> best_score(before, after, i, j) <= 240 * (before.len() - i),
    decreases before.len() - i + after.len() - j,
{
    if i < before.len() && j < after.len() {
        score_bound(before, after, i + 1, j + 1);
        score_bound(before, after, i + 1, j);
        score_bound(before, after, i, j + 1);
    }
}

/// The score behind row `i` and column `j`; the rows stand from the last to
/// the first.
fn score_at(table: &Vec<Vec<u128>>, n: usize, m: usize, i: usize, j: usize) -> (result: u128)
    requires
        i < n && j < m ==> n - 1 - i < table@.len() && table@[n - 1 - i]@.len() == m,
    ensures
        i < n && j < m ==> result == table@[n - 1 - i]@[j as int],
        !(i < n && j < m) ==> result == 0,
{
    if i < n && j < m {
        table[n - 1 - i][j]
    } else {
        0
    }
}

/// The best scores of all suffixes; the rows stand from the last to the first.
#[verifier::rlimit(30)]
fn score_table(before: &Vec<CallNode>, after: &Vec<CallNode>) -> (table: Vec<Vec<u128>>)
    ensures
        table@.len() == before@.len(),
        forall|row: int, column: int|
            0 <= row < before@.len() && 0 <= column < after@.len() ==> (
            #[trigger] table@[row]@[column]) == best_score(
                node_models(before@),
                node_models(after@),
                (before@.len() - 1 - row) as nat,
                column as nat,
            ),
        forall|row: int|
            0 <= row < before@.len() ==> (#[trigger] table@[row])@.len() == after@.len(),
{
    let n: usize = before.len();
    let m: usize = after.len();
    let ghost left = node_models(before@);
    let ghost right = node_models(after@);
    let mut table: Vec<Vec<u128>> = Vec::new();
    let mut i: usize = n;
    while i > 0
        invariant
            i <= n,
            n == before@.len(),
            m == after@.len(),
            left == node_models(before@),
            right == node_models(after@),
            table@.len() == n - i,
            forall|row: int, column: int|
                0 <= row < n - i && 0 <= column < m ==> (#[trigger] table@[row]@[column])
                    == best_score(left, right, (n - 1 - row) as nat, column as nat),
            forall|row: int| 0 <= row < n - i ==> (#[trigger] table@[row])@.len() == m,
        decreases i,
    {
        i -= 1;
        let mut row: Vec<u128> = vec![0u128; m];
        let mut j: usize = m;
        while j > 0
            invariant
                i < n,
                j <= m,
                n == before@.len(),
                m == after@.len(),
                left == node_models(before@),
                right == node_models(after@),
                table@.len() == n - 1 - i,
                forall|row: int, column: int|
                    0 <= row < n - 1 - i && 0 <= column < m ==> (#[trigger] table@[row]@[column])
                        == best_score(left, right, (n - 1 - row) as nat, column as nat),
                forall|row: int| 0 <= row < n - 1 - i ==> (#[trigger] table@[row])@.len() == m,
                row@.len() == m,
                forall|column: int|
                    j <= column < m ==> (#[trigger] row@[column]) == best_score(
                        left,
                        right,
                        i as nat,
                        column as nat,
                    ),
            decreases j,
        {
            j -= 1;
            proof {
                assert(left[i as int] == before@[i as int]@);
                assert(right[j as int] == after@[j as int]@);
                score_bound(left, right, (i + 1) as nat, (j + 1) as nat);
                if i + 1 < n && j + 1 < m {
                    assert(table@[n - 2 - i]@[j + 1] == best_score(
                        left,
                        right,
                        (i + 1) as nat,
                        (j + 1) as nat,
                    ));
                }
                if i + 1 < n {
                    assert(table@[n - 2 - i]@[j as int] == best_score(
                        left,
                        right,
                        (i + 1) as nat,
                        j as nat,
                    ));
                }
            }
            let paired: u128 = match alignment_weight(&before[i], &after[j]) {
                Some(weight) => {
                    let rest: u128 = if i + 1 < n && j + 1 < m {
                        table[n - 2 - i][j + 1]
                    } else {
                        0
                    };
                    rest + weight
                },
                None => 0,
            };
            let removed: u128 = if i + 1 < n {
                table[n - 2 - i][j]
            } else {
                0
            };
            let added: u128 = if j + 1 < m {
                row[j + 1]
            } else {
                0
            };
            proof {
                assert(removed == best_score(left, right, (i + 1) as nat, j as nat));
                assert(added == best_score(left, right, i as nat, (j + 1) as nat));
                if i + 1 >= n || j + 1 >= m {
                    assert(best_score(left, right, (i + 1) as nat, (j + 1) as nat) == 0);
                }
            }
            let mut best: u128 = paired;
            if removed > best {
                best = removed;
            }
            if added > best {
                best = added;
            }
            proof {
                assert(best == best_score(left, right, i as nat, j as nat));
            }
            row.set(j, best);
        }
        let ghost filled = row@;
        table.push(row);
        proof {
            assert(table@[n - 1 - i]@ == filled);
        }
    }
    table
}

#[verifier::rlimit(30)]
fn diff_children(before: &Vec<CallNode>, after: &Vec<CallNode>) -> (result: Vec<DiffNode>)
    ensures
        diff_models(result@) == compared_lists(node_models(before@), node_models(after@)),
    decreases before, 0nat,
{
    let n: usize = before.len();
    let m: usize = after.len();
    let ghost left = node_models(before@);
    let ghost right = node_models(after@);
    let mut result: Vec<DiffNode> = Vec::new();
    if all_equivalent(before, after) {
        let mut index: usize = 0;
        while index < n
            invariant
                index <= n,
                n == before@.len(),
                n == after@.len(),
                left == node_models(before@),
                right == node_models(after@),
                result@.len() == index,
                forall|k: int|
                    0 <= k < index ==> (#[trigger] result@[k])@ == compared(left[k], right[k]),
            decreases n - index,
        {
            let child = &before[index];
            proof {
                assert(decreases_to!(before => child));
                assert(left[index as int] == child@);
                assert(right[index as int] == after@[index as int]@);
            }
            result.push(diff_node(child, &after[index]));
            index += 1;
        }
        proof {
            assert(diff_models(result@) =~= compared_lists(left, right));
        }
        return result;
    }
    let table = score_table(before, after);
    let mut i: usize = 0;
    let mut j: usize = 0;
    proof {
        assert(diff_models(result@) =~= Seq::<DiffModel>::empty());
        assert(diff_models(result@) + aligned(left, right, 0, 0) =~= aligned(left, right, 0, 0));
    }
    while i < n || j < m
        invariant
            i <= n,
            j <= m,
            n == before@.len(),
            m == after@.len(),
            left == node_models(before@),
            right == node_models(after@),
            table@.len() == n,
            forall|row: int, column: int|
                0 <= row < n && 0 <= column < m ==> (#[trigger] table@[row]@[column])
                    == best_score(left, right, (n - 1 - row) as nat, column as nat),
            forall|row: int| 0 <= row < n ==> (#[trigger] table@[row])@.len() == m,
            diff_models(result@) + aligned(left, right, i as nat, j as nat) == aligned(
                left,
                right,
                0,
                0,
            ),
        decreases n - i + m - j,
    {
        let ghost done = diff_models(result@);
        let ghost rest = aligned(left, right, i as nat, j as nat);
        proof {
            if i < n {
                assert(left[i as int] == before@[i as int]@);
                let child = before@[i as int];
                assert(decreases_to!(before => child));
            }
            if j < m {
                assert(right[j as int] == after@[j as int]@);
            }
        }
        let mut pair = false;
        let mut remove = i < n;
        if i < n && j < m {
            proof {
                score_bound(left, right, (i + 1) as nat, (j + 1) as nat);
                assert(table@[n - 1 - i]@[j as int] == best_score(left, right, i as nat, j as nat));
                if i + 1 < n {
                    assert(table@[n - 2 - i]@[j as int] == best_score(
                        left,
                        right,
                        (i + 1) as nat,
                        j as nat,
                    ));
                }
                if j + 1 < m {
                    assert(table@[n - 1 - i]@[j + 1] == best_score(
                        left,
                        right,
                        i as nat,
                        (j + 1) as nat,
                    ));
                }
                if i + 1 < n && j + 1 < m {
                    assert(table@[n - 2 - i]@[j + 1] == best_score(
                        left,
                        right,
                        (i + 1) as nat,
                        (j + 1) as nat,
                    ));
                }
            }
            if let Some(weight) = alignment_weight(&before[i], &after[j]) {
                pair = score_at(&table, n, m, i + 1, j + 1) + weight == score_at(
                    &table,
                    n,
                    m,
                    i,
                    j,
                );
            }
            remove = score_at(&table, n, m, i + 1, j) >= score_at(&table, n, m, i, j + 1);
        }
        if pair {
            let child = &before[i];
            result.push(diff_node(child, &after[j]));
            i += 1;
            j += 1;
        } else if remove {
            result.push(mark_tree(&before[i], DiffStatus::Removed));
            i += 1;
        } else {
            result.push(mark_tree(&after[j], DiffStatus::Added));
            j += 1;
        }
        proof {
            let last = result@.last()@;
            assert(diff_models(result@) =~= done.push(last));
            assert(rest == seq![last] + aligned(left, right, i as nat, j as nat));
            assert(done + (seq![last] + aligned(left, right, i as nat, j as nat)) =~= diff_models(
                result@,
            ) + aligned(left, right, i as nat, j as nat));
        }
    }
    proof {
        assert(diff_models(result@) + aligned(left, right, i as nat, j as nat) =~= diff_models(
            result@,
        ));
    }
    result
}

fn all_equivalent(before: &Vec<CallNode>, after: &Vec<CallNode>) -> (result: bool)
    ensures
        result == equal_lists(node_models(before@), node_models(after@)),
{
    if before.len() != after.len() {
        return false;
    }
    let ghost left = node_models(before@);
    let ghost right = node_models(after@);
    let mut index: usize = 0;
    while index < before.len()
        invariant
            index <= before@.len(),
            before@.len() == after@.len(),
            left == node_models(before@),
            right == node_models(after@),
            forall|k: int| #![trigger left[k]]
                0 <= k < index ==> equal_trees(left[k], right[k]),
        decreases before@.len() - index,
    {
        assert(left[index as int] == before@[index as int]@);
        assert(right[index as int] == after@[index as int]@);
        if !nodes_equivalent(&before[index], &after[index]) {
            return false;
        }
        index += 1;
    }
    true
}

/// Whether anything in a comparison changed.
pub fn tree_has_changes(node: &DiffNode) -> (result: bool)
    ensures
        result == has_changes(node@),
    decreases node,
{
    if node.status != DiffStatus::Same {
        return true;
    }
    let mut index: usize = 0;
    while index < node.children.len()
        invariant
            index <= node.children@.len(),
            node.status == DiffStatus::Same,
            forall|k: int| #![trigger node@.children[k]]
                0 <= k < index ==> !has_changes(node@.children[k]),
        decreases node.children@.len() - index,
    {
        let child = &node.children[index];
        assert(decreases_to!(node => child));
        assert(node@.children[index as int] == child@);
        if tree_has_changes(child) {
            return true;
        }
        index += 1;
    }
    false
}

/// Whether any of the nodes changed.
pub open spec fn any_changes(nodes: Seq<DiffModel>) -> bool {
    exists|index: int| #![trigger nodes[index]]
        0 <= index < nodes.len() && has_changes(nodes[index])
}

/// What stands in place of changes that lie too deep to be shown.
pub open spec fn depth_marker(key: Seq<char>) -> DiffModel {
    DiffModel {
        key: key + "#depth-limit"@,
        callsite: None,
        label: LabelModel { default: "… changed below max depth"@, typed: None },
        relation: CallRelation::Call,
        before_label: None,
        before_relation: None,
        status: DiffStatus::Added,
        children: Seq::empty(),
    }
}

/// A comparison cut `depth` levels below its root. Where changes are cut off,
/// a marker says so.
pub open spec fn truncated(node: DiffModel, depth: nat) -> DiffModel
    decreases node,
{
    DiffModel {
        children: if depth == 0 {
            if any_changes(node.children) {
                seq![depth_marker(node.key)]
            } else {
                Seq::empty()
            }
        } else {
            Seq::new(
                node.children.len(),
                |index: int|
                    if 0 <= index < node.children.len() {
                        truncated(node.children[index], (depth - 1) as nat)
                    } else {
                        arbitrary()
                    },
            )
        },
        ..node
    }
}

/// Cuts a comparison `max_depth` levels below its root. Where changes are cut
/// off, a marker says so.
pub fn truncate_diff_tree(node: &mut DiffNode, max_depth: usize)
    ensures
        final(node)@ == truncated(old(node)@, max_depth as nat),
{
    truncate_diff_tree_at(node, max_depth);
}

fn truncate_diff_tree_at(node: &mut DiffNode, depth: usize)
    ensures
        final(node)@ == truncated(old(node)@, depth as nat),
    decreases *old(node),
{
    let ghost before = *node;
    let count: usize = node.children.len();
    if depth == 0 {
        let mut changed = false;
        let mut index: usize = 0;
        while index < count
            invariant
                index <= count,
                *node == before,
                count == before.children@.len(),
                changed == exists|k: int| #![trigger before@.children[k]]
                    0 <= k < index && has_changes(before@.children[k]),
            decreases count - index,
        {
            assert(before@.children[index as int] == before.children@[index as int]@);
            if tree_has_changes(&node.children[index]) {
                changed = true;
            }
            index += 1;
        }
        let mut children: Vec<DiffNode> = Vec::new();
        if changed {
            children.push(
                DiffNode {
                    key: concat_texts(node.key.as_str(), "#depth-limit"),
                    callsite: None,
                    label: CallLabel::new("… changed below max depth"),
                    relation: CallRelation::Call,
                    before_label: None,
                    before_relation: None,
                    status: DiffStatus::Added,
                    children: Vec::new(),
                },
            );
            proof {
                assert(children@[0]@.children =~= Seq::<DiffModel>::empty());
                assert(children@[0]@ == depth_marker(before@.key));
            }
        }
        node.children = children;
        proof {
            assert(node@.children =~= diff_models(node.children@));
            assert(node@.children =~= truncated(before@, 0).children);
        }
        return ;
    }
    let mut index: usize = 0;
    while index < count
        invariant
            index <= count,
            depth > 0,
            count == before.children@.len(),
            node.children@.len() == count,
            before == *old(node),
            (DiffNode { children: before.children, ..*node }) == before,
            forall|k: int|
                0 <= k < index ==> (#[trigger] node.children@[k])@ == truncated(
                    before.children@[k]@,
                    (depth - 1) as nat,
                ),
            forall|k: int|
                index <= k < count ==> (#[trigger] node.children@[k]) == before.children@[k],
        decreases count - index,
    {
        let ghost child = before.children@[index as int];
        proof {
            assert(decreases_to!(before => child));
        }
        truncate_diff_tree_at(&mut node.children[index], depth - 1);
        index += 1;
    }
    proof {
        assert(node@.children =~= truncated(before@, depth as nat).children);
    }
}

/// Whether a call that may reach several functions stands in a comparison.
pub open spec fn has_dispatch_context(node: DiffModel) -> bool
    decreases node,
{
    node.relation == CallRelation::DispatchCandidate || exists|index: int|
        #![trigger node.children[index]]
        0 <= index < node.children.len() && has_dispatch_context(node.children[index])
}

fn subtree_has_dispatch_context(node: &DiffNode) -> (result: bool)
    ensures
        result == has_dispatch_context(node@),
    decreases node,
{
    if node.relation == CallRelation::DispatchCandidate {
        return true;
    }
    let mut index: usize = 0;
    while index < node.children.len()
        invariant
            index <= node.children@.len(),
            node.relation != CallRelation::DispatchCandidate,
            forall|k: int| #![trigger node@.children[k]]
                0 <= k < index ==> !has_dispatch_context(node@.children[k]),
        decreases node.children@.len() - index,
    {
        let child = &node.children[index];
        assert(decreases_to!(node => child));
        assert(node@.children[index as int] == child@);
        if subtree_has_dispatch_context(child) {
            return true;
        }
        index += 1;
    }
    false
}

/// A comparison without what lies below unchanged nodes, except where a
/// dispatch candidate stands there.
pub open spec fn collapsed(node: DiffModel) -> DiffModel
    decreases node,
{
    DiffModel {
        children: if has_changes(node) || has_dispatch_context(node) {
            Seq::new(
                node.children.len(),
                |index: int|
                    if 0 <= index < node.children.len() {
                        collapsed(node.children[index])
                    } else {
                        arbitrary()
                    },
            )
        } else {
            Seq::empty()
        },
        ..node
    }
}

/// Hides what lies below unchanged nodes, and says whether anything changed.
/// Paths that lead to a change and subtrees that were added or removed stay.
pub fn collapse_unchanged_subtrees(node: &mut DiffNode) -> (result: bool)
    ensures
        final(node)@ == collapsed(old(node)@),
        result == has_changes(old(node)@),
    decreases *old(node),
{
    let ghost before = *node;
    let carries_dispatch_context = subtree_has_dispatch_context(node);
    let mut descendants_changed = false;
    let count: usize = node.children.len();
    let mut index: usize = 0;
    while index < count
        invariant
            index <= count,
            count == before.children@.len(),
            node.children@.len() == count,
            before == *old(node),
            (DiffNode { children: before.children, ..*node }) == before,
            descendants_changed == exists|k: int| #![trigger before@.children[k]]
                0 <= k < index && has_changes(before@.children[k]),
            forall|k: int|
                0 <= k < index ==> (#[trigger] node.children@[k])@ == collapsed(
                    before.children@[k]@,
                ),
            forall|k: int|
                index <= k < count ==> (#[trigger] node.children@[k]) == before.children@[k],
        decreases count - index,
    {
        let ghost child = before.children@[index as int];
        proof {
            assert(decreases_to!(before => child));
            assert(before@.children[index as int] == child@);
        }
        if collapse_unchanged_subtrees(&mut node.children[index]) {
            descendants_changed = true;
        }
        index += 1;
    }
    let changed = node.status != DiffStatus::Same || descendants_changed;
    if !changed && !carries_dispatch_context {
        node.children = Vec::new();
    }
    proof {
        assert(node@.children =~= collapsed(before@).children);
    }
    changed
}

} // verus!
