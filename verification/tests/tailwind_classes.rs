use website::tailwind::{ColumnSort, TailwindClassesPreset};

#[test]
fn table_classes_append_the_given_ones() {
    let preset = TailwindClassesPreset::new();
    assert_eq!(
        preset.table("w-full"),
        "text-sm text-left text-dark-500 dark:text-dark-400 w-full"
    );
}

#[test]
fn head_row_classes() {
    let preset = TailwindClassesPreset::new();
    assert_eq!(
        preset.head_row("x"),
        "sticky top-0 text-xs text-dark-700 uppercase bg-dark-200 dark:bg-dark-700 dark:text-dark-300 x"
    );
}

#[test]
fn head_cell_marks_sorted_columns_only() {
    let preset = TailwindClassesPreset::new();
    assert_eq!(
        preset.head_cell(ColumnSort::Unsorted, "t"),
        "cursor-pointer px-5 py-2  t"
    );
    assert_eq!(
        preset.head_cell(ColumnSort::Ascending, "t"),
        "cursor-pointer px-5 py-2 text-darker dark:text-light t"
    );
    assert_eq!(
        preset.head_cell(ColumnSort::Descending, "t"),
        preset.head_cell(ColumnSort::Ascending, "t")
    );
}

#[test]
fn head_cell_inner_classes() {
    let preset = TailwindClassesPreset::new();
    assert_eq!(
        preset.head_cell_inner(),
        "flex items-center after:content-[--sort-icon] after:pl-1 after:opacity-40 before:content-[--sort-priority] before:order-last before:pl-0.5 before:font-light before:opacity-40"
    );
}

#[test]
fn rows_are_striped_and_selected_rows_stand_out() {
    let preset = TailwindClassesPreset::new();
    assert_eq!(
        preset.row(0, false, "r"),
        "border-b dark:border-dark-700 bg-light dark:bg-dark-900 hover:bg-dark-100 dark:hover:bg-dark-800 r"
    );
    assert_eq!(
        preset.row(1, false, "r"),
        "border-b dark:border-dark-700 bg-dark-50 dark:bg-dark-800 hover:bg-dark-100 dark:hover:bg-dark-700 r"
    );
    assert_eq!(preset.row(2, false, "r"), preset.row(0, false, "r"));
    assert_eq!(
        preset.row(3, true, "r"),
        "border-b dark:border-dark-700 bg-cyan-300 text-dark-700 dark:bg-cyan-700 dark:text-dark-400 r"
    );
    assert_eq!(preset.row(4, true, "r"), preset.row(3, true, "r"));
}

#[test]
fn cell_classes() {
    let preset = TailwindClassesPreset::new();
    assert_eq!(preset.cell(""), "px-5 py-2 ");
    assert_eq!(preset.cell("font-bold"), "px-5 py-2 font-bold");
}
