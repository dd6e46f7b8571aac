//! The Tailwind CSS classes of the bets table.

use vstd::prelude::*;

verus! {

/// How a column of the table is sorted.
#[derive(Clone, Copy, Debug, PartialEq, Eq, Structural)]
pub enum ColumnSort {
    Ascending,
    Descending,
    Unsorted,
}

/// Classes of the table element.
pub open spec fn table_base() -> Seq<char> {
    "text-sm text-left text-dark-500 dark:text-dark-400"@
}

/// Classes of the head row.
pub open spec fn head_row_base() -> Seq<char> {
    "sticky top-0 text-xs text-dark-700 uppercase bg-dark-200 dark:bg-dark-700 dark:text-dark-300"@
}

/// Classes of every head cell.
pub open spec fn head_cell_base() -> Seq<char> {
    "cursor-pointer px-5 py-2 "@
}

/// Classes of a head cell whose column is sorted.
pub open spec fn sorted_head_cell() -> Seq<char> {
    "text-darker dark:text-light"@
}

/// Classes of the element inside a head cell.
pub open spec fn head_cell_inner_classes() -> Seq<char> {
    "flex items-center after:content-[--sort-icon] after:pl-1 after:opacity-40 before:content-[--sort-priority] before:order-last before:pl-0.5 before:font-light before:opacity-40"@
}

/// Classes of every body row.
pub open spec fn row_base() -> Seq<char> {
    "border-b dark:border-dark-700"@
}

/// Background of a selected row.
pub open spec fn selected_row() -> Seq<char> {
    "bg-cyan-300 text-dark-700 dark:bg-cyan-700 dark:text-dark-400"@
}

/// Background of an unselected row with an even index.
pub open spec fn even_row() -> Seq<char> {
    "bg-light dark:bg-dark-900 hover:bg-dark-100 dark:hover:bg-dark-800"@
}

/// Background of an unselected row with an odd index.
pub open spec fn odd_row() -> Seq<char> {
    "bg-dark-50 dark:bg-dark-800 hover:bg-dark-100 dark:hover:bg-dark-700"@
}

/// Classes of every body cell.
pub open spec fn cell_base() -> Seq<char> {
    "px-5 py-2"@
}

/// The background classes of the body row with index `row_index`.
pub open spec fn row_background(row_index: int, selected: bool) -> Seq<char> {
    if selected {
        selected_row()
    } else if row_index % 2 == 0 {
        even_row()
    } else {
        odd_row()
    }
}

/// `a`, a space, then `b`.
pub open spec fn spaced(a: Seq<char>, b: Seq<char>) -> Seq<char> {
    a + " "@ + b
}

/// `first + " " + second`, as a new string.
fn join_spaced(first: &str, second: &str) -> (res: String)
    ensures
        res@ == spaced(first@, second@),
{
    let mut res = String::from_str(first);
    res.append(" ");
    res.append(second);
    res
}

/// The class preset that styles the table with Tailwind.
#[derive(Clone, Copy, Debug)]
pub struct TailwindClassesPreset;

impl TailwindClassesPreset {
    /// The preset.
    pub fn new() -> (res: TailwindClassesPreset)
        ensures
            res == TailwindClassesPreset,
    {
        TailwindClassesPreset
    }

    /// The classes of the table element, followed by `classes`.
    pub fn table(&self, classes: &str) -> (res: String)
        ensures
            res@ == spaced(table_base(), classes@),
    {
        join_spaced("text-sm text-left text-dark-500 dark:text-dark-400", classes)
    }

    /// The classes of the head row, followed by `template_classes`.
    pub fn head_row(&self, template_classes: &str) -> (res: String)
        ensures
            res@ == spaced(head_row_base(), template_classes@),
    {
        join_spaced(
            "sticky top-0 text-xs text-dark-700 uppercase bg-dark-200 dark:bg-dark-700 dark:text-dark-300",
            template_classes,
        )
    }

    /// The classes of a head cell: the sorted-column classes only where
    /// the column is sorted, then `template_classes`.
    pub fn head_cell(&self, sort: ColumnSort, template_classes: &str) -> (res: String)
        ensures
            res@ == head_cell_base() + spaced(
                (if sort == ColumnSort::Unsorted {
                    Seq::<char>::empty()
                } else {
                    sorted_head_cell()
                }),
                template_classes@,
            ),
    {
        let sort_class = match sort {
            ColumnSort::Unsorted => "",
            _ => "text-darker dark:text-light",
        };
        proof {
            reveal_strlit("");
        }
        let mut res = String::from_str("cursor-pointer px-5 py-2 ");
        let tail = join_spaced(sort_class, template_classes);
        res.append(tail.as_str());
        res
    }

    /// The classes of the element inside a head cell.
    pub fn head_cell_inner(&self) -> (res: String)
        ensures
            res@ == head_cell_inner_classes(),
    {
        String::from_str(
            "flex items-center after:content-[--sort-icon] after:pl-1 after:opacity-40 before:content-[--sort-priority] before:order-last before:pl-0.5 before:font-light before:opacity-40",
        )
    }

    /// The classes of a body row: the row base, its background (striped by
    /// index parity, or the selected background), then `template_classes`.
    pub fn row(&self, row_index: usize, selected: bool, template_classes: &str) -> (res: String)
        ensures
            res@ == spaced(
                row_base(),
                spaced(row_background(row_index as int, selected), template_classes@),
            ),
    {
        let bg_color = if row_index % 2 == 0 {
            if selected {
                "bg-cyan-300 text-dark-700 dark:bg-cyan-700 dark:text-dark-400"
            } else {
                "bg-light dark:bg-dark-900 hover:bg-dark-100 dark:hover:bg-dark-800"
            }
        } else {
            if selected {
                "bg-cyan-300 text-dark-700 dark:bg-cyan-700 dark:text-dark-400"
            } else {
                "bg-dark-50 dark:bg-dark-800 hover:bg-dark-100 dark:hover:bg-dark-700"
            }
        };
        let tail = join_spaced(bg_color, template_classes);
        join_spaced("border-b dark:border-dark-700", tail.as_str())
    }

    /// The classes of a body cell, followed by `template_classes`.
    pub fn cell(&self, template_classes: &str) -> (res: String)
        ensures
            res@ == spaced(cell_base(), template_classes@),
    {
        join_spaced("px-5 py-2", template_classes)
    }
}

/// Unselected rows are striped in pairs: a row looks like the row two
/// below it; a selected row looks the same whatever its index.
pub proof fn lemma_row_stripes(row_index: int, selected: bool)
    ensures
        row_background(row_index, selected) == row_background(row_index + 2, selected),
        selected ==> row_background(row_index, selected) == row_background(row_index + 1, selected),
        !selected ==> row_background(row_index, selected) != row_background(
            row_index + 1,
            selected,
        ),
{
    reveal_strlit("bg-light dark:bg-dark-900 hover:bg-dark-100 dark:hover:bg-dark-800");
    reveal_strlit("bg-dark-50 dark:bg-dark-800 hover:bg-dark-100 dark:hover:bg-dark-700");
    assert(even_row()[3] != odd_row()[3]);
}

} // verus!
