//! A directory listing engine (`ls`) and the small command-line tokenizer of
//! the shell around it, with their behaviour stated as contracts.
mod columns;
mod entry;
mod listing;
mod long_format;
mod parsing;
mod sorting;
mod text;

pub use text::{chars_of, decimal, pad_left, pad_right};
pub use entry::{
    colorize, file_type_char, kind_from_mode, permissions_string, push_suffix, style_of,
    suffix_for, DirectoryEntry, DisplayStyle, EntryKind,
};
pub use sorting::{key_less, ls_cmp, sort_by_keys, sort_key, sort_order};
pub use columns::{format_columns, layout_columns, visible_width};
pub use long_format::{date_field_from, format_date, long_format_line, long_format_line_from, total_header, DateStamp};
pub use listing::{
    assemble_output, directory_order, list_directory, list_file, list_targets, lookup_details,
    parse_flags, render_directory, render_file, short_display_name, targets_of,
    trim_trailing_newline, EntryDetails, Listing, LsConfig, Target,
};
pub use parsing::{
    flatten_flags, parse_command, quote_state, remove_all_quotes, rm_recursive, tokenize, QuoteState,
    Var,
};
