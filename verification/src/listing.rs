//! The listing of an artifact's tensors that its weights are identified by.
//!
//! One line for each tensor, with its name, its shape and its place, in
//! lexicographic order. The digest of the listing identifies the weights.

use vstd::prelude::*;
use vstd::relations::{sorted_by, total_ordering};
use vstd::seq_lib::lemma_sorted_unique;
use vstd::string::StringExecFns;

use crate::model::{tensor_views, ModelTensorMetadata, TensorView};
use crate::text::{characters, decimal, decimal_text};

verus! {

/// Whether a text does not come after another in lexicographic order.
pub open spec fn at_most(left: Seq<char>, right: Seq<char>) -> bool
    decreases left.len(),
{
    if left.len() == 0 {
        true
    } else if right.len() == 0 {
        false
    } else if left[0] != right[0] {
        left[0] < right[0]
    } else {
        at_most(left.skip(1), right.skip(1))
    }
}

/// Lexicographic order as a relation.
pub open spec fn lexicographic() -> spec_fn(Seq<char>, Seq<char>) -> bool {
    |left: Seq<char>, right: Seq<char>| at_most(left, right)
}

/// Lines, each but the last followed by a line feed.
pub open spec fn joined(lines: Seq<Seq<char>>) -> Seq<char>
    decreases lines.len(),
{
    if lines.len() == 0 {
        Seq::empty()
    } else if lines.len() == 1 {
        lines[0]
    } else {
        joined(lines.drop_last()) + "\n"@ + lines.last()
    }
}

/// Numbers with commas between them.
pub open spec fn listed_numbers(numbers: Seq<u64>) -> Seq<char>
    decreases numbers.len(),
{
    if numbers.len() == 0 {
        Seq::empty()
    } else if numbers.len() == 1 {
        decimal_text(numbers[0] as nat)
    } else {
        listed_numbers(numbers.drop_last()) + ", "@ + decimal_text(numbers.last() as nat)
    }
}

/// An optional number: `Some(n)` or `None`.
pub open spec fn listed_option(number: Option<u64>) -> Seq<char> {
    match number {
        Some(number) => "Some("@ + decimal_text(number as nat) + ")"@,
        None => "None"@,
    }
}

/// The line of one tensor.
pub open spec fn tensor_line(tensor: TensorView) -> Seq<char> {
    tensor.name + ":["@ + listed_numbers(tensor.shape) + "]:"@ + listed_option(tensor.offset_bytes)
        + ":"@ + listed_option(tensor.size_bytes)
}

/// The lines of tensors, in their order.
pub open spec fn tensor_lines(tensors: Seq<TensorView>) -> Seq<Seq<char>> {
    tensors.map_values(|tensor: TensorView| tensor_line(tensor))
}

/// The listing of tensors: their lines, sorted.
pub open spec fn weights_listing(tensors: Seq<TensorView>) -> Seq<char> {
    joined(tensor_lines(tensors).sort_by(lexicographic()))
}

proof fn lemma_at_most_transitive(a: Seq<char>, b: Seq<char>, c: Seq<char>)
    requires
        at_most(a, b),
        at_most(b, c),
    ensures
        at_most(a, c),
    decreases a.len(),
{
    if a.len() > 0 && a[0] == b[0] && b[0] == c[0] {
        lemma_at_most_transitive(a.skip(1), b.skip(1), c.skip(1));
    }
}

proof fn lemma_at_most_antisymmetric(a: Seq<char>, b: Seq<char>)
    requires
        at_most(a, b),
        at_most(b, a),
    ensures
        a == b,
    decreases a.len(),
{
    if a.len() > 0 {
        lemma_at_most_antisymmetric(a.skip(1), b.skip(1));
        assert forall|i: int| 0 <= i < a.len() implies a[i] == b[i] by {
            if i > 0 {
                assert(a.skip(1)[i - 1] == b.skip(1)[i - 1]);
            }
        }
        assert(a.skip(1).len() == b.skip(1).len());
    }
    assert(a =~= b);
}

proof fn lemma_at_most_total(a: Seq<char>, b: Seq<char>)
    ensures
        at_most(a, b) || at_most(b, a),
        at_most(a, a),
    decreases a.len(),
{
    if a.len() > 0 {
        if b.len() > 0 && a[0] == b[0] {
            lemma_at_most_total(a.skip(1), b.skip(1));
        } else {
            lemma_at_most_total(a.skip(1), a.skip(1));
        }
    }
}

/// Lexicographic order is a total order of texts.
pub proof fn lexicographic_is_total()
    ensures
        total_ordering(lexicographic()),
{
    let leq = lexicographic();
    assert forall|a: Seq<char>| #[trigger] leq(a, a) by {
        lemma_at_most_total(a, a);
    }
    assert forall|a: Seq<char>, b: Seq<char>| #[trigger] leq(a, b) && #[trigger] leq(b, a) implies a
        == b by {
        lemma_at_most_antisymmetric(a, b);
    }
    assert forall|a: Seq<char>, b: Seq<char>, c: Seq<char>| #[trigger]
        leq(a, b) && #[trigger] leq(b, c) implies leq(a, c) by {
        lemma_at_most_transitive(a, b, c);
    }
    assert forall|a: Seq<char>, b: Seq<char>| #[trigger] leq(a, b) || #[trigger] leq(b, a) by {
        lemma_at_most_total(a, b);
    }
}

/// The listing is made of the tensors' lines in whatever arrangement of them is
/// sorted.
pub proof fn listing_is_sorted_lines(tensors: Seq<TensorView>, lines: Seq<Seq<char>>)
    requires
        sorted_by(lines, lexicographic()),
        lines.to_multiset() == tensor_lines(tensors).to_multiset(),
    ensures
        weights_listing(tensors) == joined(lines),
{
    lexicographic_is_total();
    tensor_lines(tensors).lemma_sort_by_ensures(lexicographic());
    lemma_sorted_unique(lines, tensor_lines(tensors).sort_by(lexicographic()), lexicographic());
}

/// The weights are identified by what tensors there are, not by the order in which
/// they are discovered.
pub proof fn listing_ignores_order(first: Seq<TensorView>, second: Seq<TensorView>)
    requires
        first.to_multiset() == second.to_multiset(),
    ensures
        weights_listing(first) == weights_listing(second),
{
    lexicographic_is_total();
    lemma_lines_of_permutation(first, second);
    tensor_lines(first).lemma_sort_by_ensures(lexicographic());
    listing_is_sorted_lines(second, tensor_lines(first).sort_by(lexicographic()));
}

/// The same tensors have the same lines.
proof fn lemma_lines_of_permutation(first: Seq<TensorView>, second: Seq<TensorView>)
    requires
        first.to_multiset() == second.to_multiset(),
    ensures
        tensor_lines(first).to_multiset() == tensor_lines(second).to_multiset(),
    decreases first.len(),
{
    first.to_multiset_ensures();
    second.to_multiset_ensures();
    assert(first.len() == second.len());
    if first.len() == 0 {
        assert(tensor_lines(first) =~= tensor_lines(second));
    } else {
        let tensor = first.last();
        let shorter = first.drop_last();
        assert(first =~= shorter.push(tensor));
        assert(first.contains(tensor));
        assert(second.to_multiset().count(tensor) > 0);
        let at = choose|at: int| 0 <= at < second.len() && second[at] == tensor;
        let rest = second.remove(at);
        shorter.to_multiset_ensures();
        assert(first.to_multiset() == shorter.to_multiset().insert(tensor));
        assert(rest.to_multiset() == second.to_multiset().remove(tensor));
        assert(shorter.to_multiset() =~= rest.to_multiset());
        lemma_lines_of_permutation(shorter, rest);
        tensor_lines(shorter).to_multiset_ensures();
        tensor_lines(second).to_multiset_ensures();
        assert(tensor_lines(first) =~= tensor_lines(shorter).push(tensor_line(tensor)));
        assert(tensor_lines(rest) =~= tensor_lines(second).remove(at));
        assert(tensor_lines(second)[at] == tensor_line(tensor));
        assert(tensor_lines(second).contains(tensor_line(tensor)));
        assert(tensor_lines(second).to_multiset() =~= tensor_lines(rest).to_multiset().insert(
            tensor_line(tensor),
        ));
    }
}

/// Whether `left` does not come after `right`.
fn comes_first(left: &str, right: &str) -> (answer: bool)
    ensures
        answer == at_most(left@, right@),
{
    let a: Vec<char> = characters(left);
    let b: Vec<char> = characters(right);
    let mut at: usize = 0;
    assert(left@.skip(0) =~= left@);
    assert(right@.skip(0) =~= right@);
    while at < a.len()
        invariant
            a@ == left@,
            b@ == right@,
            at <= a@.len(),
            at <= b@.len(),
            at_most(left@, right@) == at_most(left@.skip(at as int), right@.skip(at as int)),
        decreases a@.len() - at,
    {
        if at == b.len() {
            return false;
        }
        proof {
            assert(left@.skip(at as int).skip(1) =~= left@.skip(at + 1));
            assert(right@.skip(at as int).skip(1) =~= right@.skip(at + 1));
        }
        if a[at] != b[at] {
            return a[at] < b[at];
        }
        at += 1;
    }
    true
}

/// What a list of texts says.
spec fn views(texts: Seq<String>) -> Seq<Seq<char>> {
    texts.map_values(|text: String| text@)
}

/// Puts a text into sorted ones, at its place.
fn insert_sorted(sorted: &mut Vec<String>, text: String)
    requires
        sorted_by(views(old(sorted)@), lexicographic()),
    ensures
        sorted_by(views(final(sorted)@), lexicographic()),
        views(final(sorted)@).to_multiset() == views(old(sorted)@).to_multiset().insert(text@),
{
    let ghost before = sorted@;
    let ghost leq = lexicographic();
    let mut at: usize = sorted.len();
    while at > 0 && !comes_first(sorted[at - 1].as_str(), text.as_str())
        invariant
            sorted@ == before,
            at <= sorted@.len(),
            leq == lexicographic(),
            forall|i: int| at <= i < before.len() ==> leq(text@, (#[trigger] before[i])@),
        decreases at,
    {
        proof {
            lemma_at_most_total(before[at - 1]@, text@);
        }
        at -= 1;
    }
    sorted.insert(at, text);
    proof {
        let after = sorted@;
        assert(views(after) =~= views(before).insert(at as int, text@));
        lexicographic_is_total();
        assert forall|i: int, j: int| 0 <= i < j < after.len() implies #[trigger] leq(
            views(after)[i],
            views(after)[j],
        ) by {
            let old_i = if i < at {
                i
            } else {
                i - 1
            };
            let old_j = if j < at {
                j
            } else {
                j - 1
            };
            if i < at && j == at {
                if i < at - 1 {
                    assert(leq(views(before)[i], views(before)[at - 1]));
                    assert(leq(views(before)[at - 1], text@));
                }
            } else if i == at {
                assert(leq(text@, before[old_j]@));
            } else {
                assert(leq(views(before)[old_i], views(before)[old_j]));
            }
        }
        lemma_inserted_multiset(views(before), at as int, text@);
    }
}

proof fn lemma_inserted_multiset(texts: Seq<Seq<char>>, at: int, text: Seq<char>)
    requires
        0 <= at <= texts.len(),
    ensures
        texts.insert(at, text).to_multiset() == texts.to_multiset().insert(text),
{
    let longer = texts.insert(at, text);
    longer.to_multiset_ensures();
    texts.to_multiset_ensures();
    assert(longer.remove(at) =~= texts);
    assert(longer[at] == text);
    assert(longer.contains(text));
    assert(longer.to_multiset() =~= texts.to_multiset().insert(text));
}

fn append_numbers(text: &mut String, numbers: &Vec<u64>)
    ensures
        final(text)@ == old(text)@ + listed_numbers(numbers@),
{
    let ghost before = text@;
    let mut at: usize = 0;
    assert(numbers@.take(0) =~= Seq::<u64>::empty());
    assert(text@ =~= before + listed_numbers(numbers@.take(0)));
    while at < numbers.len()
        invariant
            at <= numbers@.len(),
            text@ == before + listed_numbers(numbers@.take(at as int)),
        decreases numbers@.len() - at,
    {
        proof {
            assert(numbers@.take(at + 1).drop_last() =~= numbers@.take(at as int));
            assert(numbers@.take(at + 1).last() == numbers@[at as int]);
        }
        if at > 0 {
            text.append(", ");
        }
        text.append(decimal(numbers[at]).as_str());
        at += 1;
        assert(text@ =~= before + listed_numbers(numbers@.take(at as int)));
    }
    assert(numbers@.take(at as int) =~= numbers@);
}

fn append_option(text: &mut String, number: Option<u64>)
    ensures
        final(text)@ == old(text)@ + listed_option(number),
{
    let ghost before = text@;
    match number {
        Some(number) => {
            text.append("Some(");
            text.append(decimal(number).as_str());
            text.append(")");
        },
        None => {
            text.append("None");
        },
    }
    assert(text@ =~= before + listed_option(number));
}

fn line_of(tensor: &ModelTensorMetadata) -> (line: String)
    ensures
        line@ == tensor_line(tensor@),
{
    let mut line: String = tensor.name.clone();
    line.append(":[");
    append_numbers(&mut line, &tensor.shape);
    line.append("]:");
    append_option(&mut line, tensor.offset_bytes);
    line.append(":");
    append_option(&mut line, tensor.size_bytes);
    line
}

fn join_lines(lines: &Vec<String>) -> (text: String)
    ensures
        text@ == joined(views(lines@)),
{
    let ghost all = views(lines@);
    let mut text: String = String::new();
    let mut at: usize = 0;
    assert(all.take(0) =~= Seq::<Seq<char>>::empty());
    assert(text@ =~= joined(all.take(0)));
    while at < lines.len()
        invariant
            at <= lines@.len(),
            all == views(lines@),
            text@ == joined(all.take(at as int)),
        decreases lines@.len() - at,
    {
        proof {
            assert(all.take(at + 1).drop_last() =~= all.take(at as int));
            assert(all.take(at + 1).last() == lines@[at as int]@);
        }
        if at > 0 {
            text.append("\n");
        }
        text.append(lines[at].as_str());
        at += 1;
        assert(text@ =~= joined(all.take(at as int)));
    }
    assert(all.take(at as int) =~= all);
    text
}

/// Lists tensors, one line each, sorted.
pub fn list_weights(tensors: &Vec<ModelTensorMetadata>) -> (text: String)
    ensures
        text@ == weights_listing(tensor_views(tensors@)),
{
    let ghost all = tensor_views(tensors@);
    let mut lines: Vec<String> = Vec::new();
    let mut at: usize = 0;
    proof {
        assert(views(lines@) =~= tensor_lines(all.take(0)));
    }
    while at < tensors.len()
        invariant
            at <= tensors@.len(),
            all == tensor_views(tensors@),
            sorted_by(views(lines@), lexicographic()),
            views(lines@).to_multiset() == tensor_lines(all.take(at as int)).to_multiset(),
        decreases tensors@.len() - at,
    {
        proof {
            let shorter = tensor_lines(all.take(at as int));
            shorter.to_multiset_ensures();
            assert(tensor_lines(all.take(at + 1)) =~= shorter.push(
                tensor_line(tensors@[at as int]@),
            ));
        }
        insert_sorted(&mut lines, line_of(&tensors[at]));
        at += 1;
    }
    proof {
        assert(all.take(at as int) =~= all);
        listing_is_sorted_lines(all, views(lines@));
    }
    join_lines(&lines)
}

} // verus!
