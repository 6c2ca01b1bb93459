//! The decisions of the user interface: what to ask before an action that
//! would lose changes, and how the query typed by the user reads.

use crate::filtering::{apply_filters, parse_facet_filters, parsed_filters, selected};
use crate::models::{item_models, Item, ItemModel};
use crate::sorting::{lemma_sorted_by_model, sort_items, sorted_models};
use crate::input::path_names;
use crate::models::Filters;
use crate::text::{
    decimal, join, join_texts, keep_non_empty, lemma_texts_push, push_decimal, split_pieces, texts,
    trim_all,
};
use crate::ui_state::{PendingAction, SimpleConfirmationAction, UiState};
use vstd::prelude::*;
use vstd::string::StringExecFns;

verus! {

/// What to do about a request that may lose unsaved changes.
#[derive(Debug, PartialEq, Eq)]
pub enum Step {
    /// Ask the user, with this question; the action waits.
    Confirm(String),
    /// Go ahead.
    Proceed,
}

/// What to do about a request to go back to the saved file.
#[derive(Debug, Clone, Copy, PartialEq, Eq, Structural)]
pub enum RevertStep {
    /// Ask the user; the revert waits.
    Confirm,
    /// There is no file to go back to.
    NoFile,
    /// There is nothing to undo.
    NoChanges,
}

/// The question to ask before `action` where changes would be lost.
pub open spec fn question(action: PendingAction) -> Seq<char> {
    match action {
        PendingAction::Open =>
            "You have unsaved changes. Do you want to save before opening another file?"@,
        PendingAction::New =>
            "You have unsaved changes. Do you want to save before creating a new taxonomy?"@,
        PendingAction::Exit => "You have unsaved changes. Do you want to save before exiting?"@,
    }
}

/// Decides on a request to open, to start anew or to exit: with unsaved
/// changes the action is made to wait and the user is asked; without, it
/// goes ahead and nothing is made to wait.
pub fn request_action(ui: &mut UiState, dirty: bool, action: PendingAction) -> (r: Step)
    ensures
        dirty ==> (r matches Step::Confirm(q) && q@ == question(action))
            && final(ui).pending_action == Some(action),
        !dirty ==> r is Proceed && final(ui).pending_action == old(ui).pending_action,
        final(ui).simple_confirmation_action == old(ui).simple_confirmation_action,
{
    if dirty {
        ui.set_pending(action);
        let q = match action {
            PendingAction::Open => String::from_str(
                "You have unsaved changes. Do you want to save before opening another file?",
            ),
            PendingAction::New => String::from_str(
                "You have unsaved changes. Do you want to save before creating a new taxonomy?",
            ),
            PendingAction::Exit => String::from_str(
                "You have unsaved changes. Do you want to save before exiting?",
            ),
        };
        Step::Confirm(q)
    } else {
        Step::Proceed
    }
}

/// Decides on a request to go back to the saved file: it is asked about
/// where there is a file and there are changes.
pub fn request_revert(ui: &mut UiState, has_file: bool, dirty: bool) -> (r: RevertStep)
    ensures
        r == (if has_file && dirty {
            RevertStep::Confirm
        } else if !has_file {
            RevertStep::NoFile
        } else {
            RevertStep::NoChanges
        }),
        final(ui).simple_confirmation_action == (if has_file && dirty {
            Some(SimpleConfirmationAction::Revert)
        } else {
            old(ui).simple_confirmation_action
        }),
        final(ui).pending_action == old(ui).pending_action,
{
    if has_file && dirty {
        ui.set_simple_confirmation(SimpleConfirmationAction::Revert);
        RevertStep::Confirm
    } else if !has_file {
        RevertStep::NoFile
    } else {
        RevertStep::NoChanges
    }
}

/// The names in a text with commas between them: trimmed, empty ones left out.
pub fn listed_names(text: &str) -> (r: Vec<String>)
    ensures
        texts(r@) == path_names(text@),
{
    let pieces = split_pieces(text, Some(','));
    let trimmed_pieces = trim_all(&pieces);
    keep_non_empty(trimmed_pieces)
}

/// The query that the user typed: genus names with commas between them, and
/// facet clauses of the form `name=value` with commas between them.
pub fn filters_from_text(genus_text: &str, facet_text: &str) -> (r: Filters)
    ensures
        texts(r.genera@) == path_names(genus_text@),
        r.facets.text_lists() == parsed_filters(path_names(facet_text@)),
        r.facets.wf(),
{
    let genera = listed_names(genus_text);
    let facet_strings = listed_names(facet_text);
    let facets = parse_facet_filters(facet_strings.as_slice());
    Filters { genera, facets }
}

/// The line for one facet clause: the name, a colon, the values with `OR` between them.
pub open spec fn clause_text(name: Seq<char>, values: Seq<Seq<char>>) -> Seq<char> {
    name + ": "@ + join(values, " OR "@)
}

/// The lines of the first `upto` facet clauses.
pub open spec fn clause_texts(facets: Seq<(Seq<char>, Seq<Seq<char>>)>, upto: int) -> Seq<
    Seq<char>,
>
    decreases upto,
{
    if upto <= 0 {
        Seq::<Seq<char>>::empty()
    } else {
        clause_texts(facets, upto - 1).push(clause_text(facets[upto - 1].0, facets[upto - 1].1))
    }
}

/// The query in words: the genus clause where there is one, and each facet
/// clause, with semicolons between them.
pub open spec fn filters_text(filters: Filters) -> Seq<char> {
    let genus_part = if filters.genera@.len() > 0 {
        seq![clause_text("Genus"@, texts(filters.genera@))]
    } else {
        Seq::<Seq<char>>::empty()
    };
    join(
        genus_part + clause_texts(
            filters.facets.text_lists(),
            filters.facets.entries@.len() as int,
        ),
        "; "@,
    )
}

/// The query in words.
#[verifier::rlimit(50)]
pub fn describe_filters(filters: &Filters) -> (r: String)
    ensures
        r@ == filters_text(*filters),
{
    let mut parts: Vec<String> = Vec::new();
    assert(texts(parts@) =~= Seq::<Seq<char>>::empty());
    if filters.genera.len() > 0 {
        let mut line = String::from_str("Genus");
        line.append(": ");
        let values = join_texts(&filters.genera, " OR ");
        line.append(values.as_str());
        proof {
            lemma_texts_push(parts@, line);
        }
        parts.push(line);
        assert(texts(parts@) =~= seq![clause_text("Genus"@, texts(filters.genera@))]);
    }
    let ghost head = texts(parts@);
    let ghost lists = filters.facets.text_lists();
    let mut i: usize = 0;
    assert(head =~= head + clause_texts(lists, 0));
    while i < filters.facets.len()
        invariant
            i <= filters.facets.entries@.len(),
            lists == filters.facets.text_lists(),
            texts(parts@) == head + clause_texts(lists, i as int),
        decreases filters.facets.entries@.len() - i,
    {
        let mut line = filters.facets.key_at(i).clone();
        line.append(": ");
        let values = join_texts(filters.facets.value_at(i), " OR ");
        line.append(values.as_str());
        proof {
            lemma_texts_push(parts@, line);
            assert(head + clause_texts(lists, i + 1) =~= (head + clause_texts(lists, i as int)).push(
                line@,
            ));
        }
        parts.push(line);
        i += 1;
    }
    join_texts(&parts, "; ")
}

/// The status line after a query was applied: how many items it selects.
pub open spec fn match_count_text(count: nat) -> Seq<char> {
    "Filters applied: "@ + decimal(count) + " items match"@
}

/// The status line after a query was applied.
pub fn match_count_status(count: usize) -> (r: String)
    ensures
        r@ == match_count_text(count as nat),
{
    let mut r = String::from_str("Filters applied: ");
    push_decimal(&mut r, count);
    r.append(" items match");
    r
}

/// The items to show: those that the query selects, in sorted order where a
/// sort field is set, else in their own order.
pub open spec fn shown(items: Seq<Item>, filters: Filters, sort_by: Option<Seq<char>>) -> Seq<
    ItemModel,
> {
    match sort_by {
        Some(field) => sorted_models(selected(items, filters), field),
        None => item_models(selected(items, filters)),
    }
}

/// The items to show, copied.
pub fn displayed_items(items: &[Item], filters: &Filters, sort_by: Option<&str>) -> (r: Vec<Item>)
    ensures
        item_models(r@) == shown(
            items@,
            *filters,
            match sort_by {
                Some(field) => Some(field@),
                None => None,
            },
        ),
{
    let mut picked = apply_filters(items, filters);
    match sort_by {
        Some(field) => {
            proof {
                lemma_sorted_by_model(picked@, selected(items@, *filters), field@);
            }
            sort_items(&mut picked, field);
        },
        None => {},
    }
    picked
}

} // verus!
