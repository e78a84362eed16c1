//! Putting a listing together: the options, which entries of a directory
//! are shown and in what order, each target's block, and the text of a
//! whole invocation with its diagnostics kept apart.
use vstd::prelude::*;
use crate::columns::{columns_text, layout_columns};
use crate::entry::{colorize, push_suffix, style_of, style_spec, styled, suffix_spec, DirectoryEntry};
use crate::long_format::{
    current_year, group_name, local_date_time, long_format_line_from, long_line, opt_view, picked,
    total_header, total_line, user_name, DateStamp,
};
use crate::sorting::{is_permutation, keys_of, sort_order, sorted_stably};
use crate::text::{push_char, push_seq, string_views};

verus! {

/// The options of a listing.
#[derive(Clone, Copy, Debug, PartialEq, Eq, Structural)]
pub struct LsConfig {
    /// `a`: show names that start with `.`, and `.` and `..`.
    pub show_all: bool,
    /// `l`: one long-format line per entry.
    pub long_format: bool,
    /// `F`: add the type suffix to short-form names.
    pub classify: bool,
}

/// What the lookups outside the library gave for one entry.
#[derive(Debug)]
pub struct EntryDetails {
    pub user: Option<String>,
    pub group: Option<String>,
    pub date: Option<DateStamp>,
}

/// What was found at one requested path.
#[derive(Debug)]
pub enum Listing {
    /// A file, or a symbolic link that does not lead to a directory.
    File(DirectoryEntry),
    /// A directory's entries in enumeration order, `.` and `..` included.
    Directory(Vec<DirectoryEntry>),
    /// The path could not be read; the message says why.
    Failed(String),
}

/// One requested path and what was found there.
#[derive(Debug)]
pub struct Target {
    pub name: String,
    pub listing: Listing,
}

pub open spec fn config_of(show_all: bool, long_format: bool, classify: bool) -> LsConfig {
    LsConfig { show_all, long_format, classify }
}

/// The options that the first `k` flags set.
pub open spec fn config_upto(flags: Seq<Seq<char>>, k: nat) -> LsConfig
    decreases k,
{
    if k == 0 {
        config_of(false, false, false)
    } else {
        let c = config_upto(flags, (k - 1) as nat);
        let f = flags[k - 1];
        if f == seq!['a'] {
            LsConfig { show_all: true, ..c }
        } else if f == seq!['l'] {
            LsConfig { long_format: true, ..c }
        } else if f == seq!['F'] {
            LsConfig { classify: true, ..c }
        } else {
            c
        }
    }
}

pub open spec fn is_known_flag(f: Seq<char>) -> bool {
    f == seq!['a'] || f == seq!['l'] || f == seq!['F']
}

pub open spec fn invalid_option_text(f: Seq<char>) -> Seq<char> {
    seq!['l', 's', ':', ' '] + seq!['i', 'n', 'v', 'a', 'l', 'i', 'd', ' '] + seq![
        'o',
        'p',
        't',
        'i',
        'o',
        'n',
        ' ',
        '-',
        '-',
        ' ',
        '\'',
    ] + f + seq!['\'']
}

/// The diagnostics of the first `k` flags: one for each that is not known.
pub open spec fn flag_errors_upto(flags: Seq<Seq<char>>, k: nat) -> Seq<Seq<char>>
    decreases k,
{
    if k == 0 {
        seq![]
    } else {
        let prev = flag_errors_upto(flags, (k - 1) as nat);
        if is_known_flag(flags[k - 1]) {
            prev
        } else {
            prev.push(invalid_option_text(flags[k - 1]))
        }
    }
}

/// Whether a name starts with `.`.
pub open spec fn is_dot_name(n: Seq<char>) -> bool {
    n.len() > 0 && n[0] == '.'
}

/// Whether an entry is listed under the option `show_all`.
pub open spec fn is_shown(e: DirectoryEntry, show_all: bool) -> bool {
    show_all || !is_dot_name(e.name@)
}

/// The names of a list of entries.
pub open spec fn entry_names(entries: Seq<DirectoryEntry>) -> Seq<String> {
    Seq::new(entries.len(), |i: int| entries[i].name)
}

/// `order` lists each shown entry of `entries` exactly once, and no other,
/// in the sort order, equal keys in enumeration order.
pub open spec fn listing_order(entries: Seq<DirectoryEntry>, show_all: bool, order: Seq<usize>) -> bool {
    &&& forall|q: int| 0 <= q < order.len() ==> order[q] < entries.len() && is_shown(entries[order[q] as int], show_all)
    &&& forall|a: int, b: int| 0 <= a < b < order.len() ==> order[a] != order[b]
    &&& forall|i: usize| i < entries.len() && is_shown(entries[i as int], show_all) ==> #[trigger] order.contains(i)
    &&& sorted_stably(keys_of(entry_names(entries)), order)
}

/// The short-form display string of an entry.
pub open spec fn short_name(e: DirectoryEntry, classify: bool) -> Seq<char> {
    styled(style_spec(e), if classify { e.name@ + suffix_spec(e) } else { e.name@ })
}

/// The short-form names of the entries that `order` picks.
pub open spec fn short_names(entries: Seq<DirectoryEntry>, order: Seq<usize>, classify: bool) -> Seq<Seq<char>> {
    Seq::new(order.len(), |q: int| short_name(entries[order[q] as int], classify))
}

pub open spec fn details_line(e: DirectoryEntry, d: EntryDetails, now_year: i32) -> Seq<char> {
    long_line(e, opt_view(d.user), opt_view(d.group), d.date, now_year)
}

/// The long-format lines of the first `k` entries that `order` picks.
pub open spec fn long_lines_upto(
    entries: Seq<DirectoryEntry>,
    details: Seq<EntryDetails>,
    order: Seq<usize>,
    now_year: i32,
    k: nat,
) -> Seq<char>
    decreases k,
{
    if k == 0 {
        seq![]
    } else {
        let i = order[k - 1] as int;
        long_lines_upto(entries, details, order, now_year, (k - 1) as nat) + details_line(
            entries[i],
            details[i],
            now_year,
        ) + seq!['\n']
    }
}

/// The block of a directory whose shown entries are those `order` picks.
pub open spec fn directory_text(
    entries: Seq<DirectoryEntry>,
    order: Seq<usize>,
    config: LsConfig,
    details: Seq<EntryDetails>,
    term_width: u16,
    now_year: i32,
) -> Seq<char> {
    if config.long_format {
        total_line(picked(entries, order)) + seq!['\n'] + long_lines_upto(
            entries,
            details,
            order,
            now_year,
            order.len(),
        )
    } else {
        columns_text(short_names(entries, order, config.classify), term_width as nat)
    }
}

/// The block of a single file.
pub open spec fn file_text(e: DirectoryEntry, config: LsConfig, d: EntryDetails, now_year: i32) -> Seq<char> {
    if config.long_format {
        details_line(e, d, now_year) + seq!['\n']
    } else {
        short_name(e, config.classify) + seq!['\n']
    }
}

pub open spec fn failure_text(name: Seq<char>, msg: Seq<char>) -> Seq<char> {
    seq!['l', 's', ':', ' '] + name + seq![':', ' '] + msg
}

/// The diagnostics of the first `k` targets: one for each that failed.
pub open spec fn diagnostics_upto(targets: Seq<Target>, k: nat) -> Seq<Seq<char>>
    decreases k,
{
    if k == 0 {
        seq![]
    } else {
        let prev = diagnostics_upto(targets, (k - 1) as nat);
        match targets[k - 1].listing {
            Listing::Failed(msg) => prev.push(failure_text(targets[k - 1].name@, msg@)),
            _ => prev,
        }
    }
}

/// The blocks of the first `k` targets joined: a blank line between two
/// blocks, and each block under a `<target>:` header where `headers` holds.
/// A target without a block adds nothing.
pub open spec fn joined_upto(names: Seq<Seq<char>>, blocks: Seq<Option<Seq<char>>>, headers: bool, k: nat) -> Seq<char>
    decreases k,
{
    if k == 0 {
        seq![]
    } else {
        let prev = joined_upto(names, blocks, headers, (k - 1) as nat);
        match blocks[k - 1] {
            None => prev,
            Some(b) => prev + (if prev.len() > 0 { seq!['\n'] } else { seq![] }) + (if headers {
                names[k - 1] + seq![':', '\n']
            } else {
                seq![]
            }) + b,
        }
    }
}

/// `s` without one trailing newline, if it ends with one.
pub open spec fn trim_newline(s: Seq<char>) -> Seq<char> {
    if s.len() > 0 && s.last() == '\n' {
        s.drop_last()
    } else {
        s
    }
}

/// The text of a whole invocation, from each target's block.
pub open spec fn assembled(names: Seq<Seq<char>>, blocks: Seq<Option<Seq<char>>>) -> Seq<char> {
    trim_newline(joined_upto(names, blocks, names.len() > 1, names.len()))
}

/// Whether `b` is a rendering of `l` under `config`, for some results of the
/// lookups, terminal width and year.
pub open spec fn is_block_of(l: Listing, config: LsConfig, b: Seq<char>) -> bool {
    match l {
        Listing::File(e) => exists|d: EntryDetails, y: i32| b == file_text(e, config, d, y),
        Listing::Directory(es) => exists|order: Seq<usize>, details: Seq<EntryDetails>, tw: u16, y: i32|
            listing_order(es@, config.show_all, order) && tw > 0 && b == directory_text(
                es@,
                order,
                config,
                details,
                tw,
                y,
            ),
        Listing::Failed(_) => false,
    }
}

pub open spec fn target_names(targets: Seq<Target>) -> Seq<Seq<char>> {
    Seq::new(targets.len(), |i: int| targets[i].name@)
}

/// The options that `flags` set, and a diagnostic for each flag that is
/// not one of `a`, `l` and `F`; the others are still applied.
pub fn parse_flags(flags: &Vec<String>) -> (r: (LsConfig, Vec<String>))
    ensures
        r.0 == config_upto(string_views(flags@), flags@.len()),
        string_views(r.1@) == flag_errors_upto(string_views(flags@), flags@.len()),
{
    let ghost fs = string_views(flags@);
    let mut config = LsConfig { show_all: false, long_format: false, classify: false };
    let mut errors: Vec<String> = Vec::new();
    let mut i: usize = 0;
    while i < flags.len()
        invariant
            fs == string_views(flags@),
            i <= flags@.len(),
            config == config_upto(fs, i as nat),
            string_views(errors@) == flag_errors_upto(fs, i as nat),
        decreases flags@.len() - i,
    {
        let f = flags[i].as_str();
        assert(fs[i as int] == f@);
        let single = f.unicode_len() == 1;
        let c = if single { f.get_char(0) } else { ' ' };
        proof {
            if single {
                assert(f@ =~= seq![c]);
            }
        }
        let ghost was = string_views(errors@);
        if single && c == 'a' {
            config.show_all = true;
        } else if single && c == 'l' {
            config.long_format = true;
        } else if single && c == 'F' {
            config.classify = true;
        } else {
            proof {
                if f@ == seq!['a'] || f@ == seq!['l'] || f@ == seq!['F'] {
                    assert(f@.len() == 1 && f@[0] == c);
                }
            }
            let mut msg = String::new();
            let ghost start = msg@;
            push_char(&mut msg, 'l');
            push_char(&mut msg, 's');
            push_char(&mut msg, ':');
            push_char(&mut msg, ' ');
            push_char(&mut msg, 'i');
            push_char(&mut msg, 'n');
            push_char(&mut msg, 'v');
            push_char(&mut msg, 'a');
            push_char(&mut msg, 'l');
            push_char(&mut msg, 'i');
            push_char(&mut msg, 'd');
            push_char(&mut msg, ' ');
            push_char(&mut msg, 'o');
            push_char(&mut msg, 'p');
            push_char(&mut msg, 't');
            push_char(&mut msg, 'i');
            push_char(&mut msg, 'o');
            push_char(&mut msg, 'n');
            push_char(&mut msg, ' ');
            push_char(&mut msg, '-');
            push_char(&mut msg, '-');
            push_char(&mut msg, ' ');
            push_char(&mut msg, '\'');
            push_seq(&mut msg, f);
            push_char(&mut msg, '\'');
            assert(msg@ =~= invalid_option_text(f@));
            errors.push(msg);
            assert(string_views(errors@) =~= was.push(invalid_option_text(f@)));
        }
        i = i + 1;
    }
    (config, errors)
}

/// The requested paths: the arguments, or `.` where there are none.
pub fn targets_of(args: &Vec<String>) -> (r: Vec<String>)
    ensures
        args@.len() > 0 ==> r@ == args@,
        args@.len() == 0 ==> r@.len() == 1 && r@[0]@ == seq!['.'],
{
    if args.len() > 0 {
        args.clone()
    } else {
        let mut dot = String::new();
        push_char(&mut dot, '.');
        assert(dot@ =~= seq!['.']);
        vec![dot]
    }
}

fn starts_with_dot(s: &str) -> (r: bool)
    ensures
        r == is_dot_name(s@),
{
    s.unicode_len() > 0 && s.get_char(0) == '.'
}

/// The entries of a directory that are listed, in listing order: without
/// `show_all` those whose names do not start with `.`, with it all of them.
pub fn directory_order(entries: &Vec<DirectoryEntry>, show_all: bool) -> (order: Vec<usize>)
    ensures
        listing_order(entries@, show_all, order@),
{
    let ghost es = entries@;
    let mut sel: Vec<usize> = Vec::new();
    let mut names: Vec<String> = Vec::new();
    let mut i: usize = 0;
    while i < entries.len()
        invariant
            es == entries@,
            i <= es.len(),
            sel@.len() == names@.len(),
            forall|q: int| 0 <= q < sel@.len() ==> sel@[q] < i && is_shown(es[sel@[q] as int], show_all),
            forall|a: int, b: int| 0 <= a < b < sel@.len() ==> sel@[a] < sel@[b],
            forall|q: int| 0 <= q < sel@.len() ==> names@[q] == es[sel@[q] as int].name,
            forall|k: usize| k < i && is_shown(es[k as int], show_all) ==> #[trigger] sel@.contains(k),
        decreases es.len() - i,
    {
        if show_all || !starts_with_dot(entries[i].name.as_str()) {
            let ghost before = sel@;
            sel.push(i);
            names.push(entries[i].name.clone());
            proof {
                assert forall|k: usize| k < i + 1 && is_shown(es[k as int], show_all) implies #[trigger] sel@.contains(k) by {
                    if k < i {
                        assert(before.contains(k));
                        let q = choose|q: int| 0 <= q < before.len() && before[q] == k;
                        assert(sel@[q] == k);
                    } else {
                        assert(sel@[before.len() as int] == k);
                    }
                }
            }
        } else {
            proof {
                assert forall|k: usize| k < i + 1 && is_shown(es[k as int], show_all) implies #[trigger] sel@.contains(k) by {
                    if k == i {
                        assert(!is_shown(es[k as int], show_all));
                    }
                }
            }
        }
        i = i + 1;
    }
    let perm = sort_order(&names);
    let mut order: Vec<usize> = Vec::new();
    let mut q: usize = 0;
    while q < perm.len()
        invariant
            es == entries@,
            is_permutation(perm@, names@.len()),
            sel@.len() == names@.len(),
            q <= perm@.len(),
            order@.len() == q,
            forall|j: int| 0 <= j < q ==> order@[j] == sel@[perm@[j] as int],
        decreases perm@.len() - q,
    {
        order.push(sel[perm[q]]);
        q = q + 1;
    }
    proof {
        let ks = keys_of(entry_names(es));
        let kn = keys_of(names@);
        assert forall|j: int| 0 <= j < sel@.len() implies kn[j] == ks[sel@[j] as int] by {
            assert(names@[j] == es[sel@[j] as int].name);
        }
        assert forall|a: int, b: int| 0 <= a < b < order@.len() implies order@[a] != order@[b] by {
            assert(perm@[a] != perm@[b]);
            if perm@[a] < perm@[b] {
                assert(sel@[perm@[a] as int] < sel@[perm@[b] as int]);
            } else {
                assert(sel@[perm@[b] as int] < sel@[perm@[a] as int]);
            }
        }
        assert forall|k: usize| k < es.len() && is_shown(es[k as int], show_all) implies #[trigger] order@.contains(k) by {
            assert(sel@.contains(k));
            let s = choose|s: int| 0 <= s < sel@.len() && sel@[s] == k;
            let su = s as usize;
            assert(perm@.contains(su));
            let j = choose|j: int| 0 <= j < perm@.len() && perm@[j] == su;
            assert(order@[j] == k);
        }
        assert forall|a: int, b: int| #![trigger order@[a], order@[b]] 0 <= a < b < order@.len() implies {
            &&& !crate::sorting::seq_lt(ks[order@[b] as int], ks[order@[a] as int])
            &&& (ks[order@[a] as int] == ks[order@[b] as int] ==> order@[a] < order@[b])
        } by {
            let pa = perm@[a];
            let pb = perm@[b];
            assert(kn[pa as int] == ks[order@[a] as int]);
            assert(kn[pb as int] == ks[order@[b] as int]);
            if pa < pb {
                assert(sel@[pa as int] < sel@[pb as int]);
            } else if pb < pa {
                assert(sel@[pb as int] < sel@[pa as int]);
            }
        }
    }
    order
}

/// The short-form display string of an entry.
pub fn short_display_name(e: &DirectoryEntry, classify: bool) -> (r: String)
    ensures
        r@ == short_name(*e, classify),
{
    let mut n = e.name.clone();
    if classify {
        push_suffix(&mut n, e);
    }
    colorize(n.as_str(), style_of(e))
}

/// The block of a directory, from the lookups' results for each entry
/// (`details[i]` for `entries[i]`), the terminal width and the current year.
pub fn render_directory(
    entries: &Vec<DirectoryEntry>,
    order: &Vec<usize>,
    config: LsConfig,
    details: &Vec<EntryDetails>,
    term_width: u16,
    now_year: i32,
) -> (r: String)
    requires
        forall|q: int| 0 <= q < order@.len() ==> order@[q] < entries@.len(),
        details@.len() == entries@.len(),
    ensures
        r@ == directory_text(entries@, order@, config, details@, term_width, now_year),
{
    if config.long_format {
        let mut out = total_header(entries, order);
        push_char(&mut out, '\n');
        let ghost head = out@;
        let mut q: usize = 0;
        while q < order.len()
            invariant
                forall|j: int| 0 <= j < order@.len() ==> order@[j] < entries@.len(),
                details@.len() == entries@.len(),
                q <= order@.len(),
                out@ == head + long_lines_upto(entries@, details@, order@, now_year, q as nat),
            decreases order@.len() - q,
        {
            let i = order[q];
            let d = &details[i];
            let line = long_format_line_from(&entries[i], &d.user, &d.group, d.date, now_year);
            push_seq(&mut out, line.as_str());
            push_char(&mut out, '\n');
            assert(out@ =~= head + long_lines_upto(entries@, details@, order@, now_year, (q + 1) as nat));
            q = q + 1;
        }
        out
    } else {
        let names = short_names_of(entries, order, config.classify);
        layout_columns(&names, term_width)
    }
}

fn short_names_of(entries: &Vec<DirectoryEntry>, order: &Vec<usize>, classify: bool) -> (r: Vec<String>)
    requires
        forall|q: int| 0 <= q < order@.len() ==> order@[q] < entries@.len(),
    ensures
        string_views(r@) == short_names(entries@, order@, classify),
{
    let mut names: Vec<String> = Vec::new();
    let mut q: usize = 0;
    while q < order.len()
        invariant
            forall|j: int| 0 <= j < order@.len() ==> order@[j] < entries@.len(),
            q <= order@.len(),
            names@.len() == q,
            forall|j: int| 0 <= j < q ==> names@[j]@ == short_name(entries@[order@[j] as int], classify),
        decreases order@.len() - q,
    {
        names.push(short_display_name(&entries[order[q]], classify));
        q = q + 1;
    }
    assert(string_views(names@) =~= short_names(entries@, order@, classify));
    names
}

/// What the lookups give for one entry: its owner's and group's names and
/// its local modification time.
pub fn lookup_details(e: &DirectoryEntry) -> (r: EntryDetails)
    ensures
        r.date matches Some(d) ==> d.wf(),
        -8_000_000_000_000 <= e.mtime <= 8_000_000_000_000 ==> r.date is Some,
{
    EntryDetails { user: user_name(e.uid), group: group_name(e.gid), date: local_date_time(e.mtime) }
}

fn no_details() -> (r: EntryDetails) {
    EntryDetails { user: None, group: None, date: None }
}

/// The block of a directory: its shown entries in listing order, in long
/// format with the lookups made here, or in columns for the terminal in use.
pub fn list_directory(entries: &Vec<DirectoryEntry>, config: LsConfig) -> (r: String)
    ensures
        exists|order: Seq<usize>, details: Seq<EntryDetails>, tw: u16, y: i32|
            listing_order(entries@, config.show_all, order) && tw > 0 && r@ == directory_text(
                entries@,
                order,
                config,
                details,
                tw,
                y,
            ),
{
    let order = directory_order(entries, config.show_all);
    let mut details: Vec<EntryDetails> = Vec::new();
    let mut i: usize = 0;
    while i < entries.len()
        invariant
            i <= entries@.len(),
            details@.len() == i,
        decreases entries@.len() - i,
    {
        if config.long_format {
            details.push(lookup_details(&entries[i]));
        } else {
            details.push(no_details());
        }
        i = i + 1;
    }
    let tw = if config.long_format {
        crate::columns::FALLBACK_WIDTH
    } else {
        crate::columns::terminal_columns()
    };
    let y = if config.long_format { current_year() } else { 0 };
    render_directory(entries, &order, config, &details, tw, y)
}

/// The block of a single file, from the lookups' results and the year.
pub fn render_file(e: &DirectoryEntry, config: LsConfig, d: &EntryDetails, now_year: i32) -> (r: String)
    ensures
        r@ == file_text(*e, config, *d, now_year),
{
    let mut s = if config.long_format {
        long_format_line_from(e, &d.user, &d.group, d.date, now_year)
    } else {
        short_display_name(e, config.classify)
    };
    push_char(&mut s, '\n');
    s
}

/// The block of a single file, with the lookups made here.
pub fn list_file(e: &DirectoryEntry, config: LsConfig) -> (r: String)
    ensures
        exists|d: EntryDetails, y: i32| r@ == file_text(*e, config, d, y),
{
    if config.long_format {
        let d = lookup_details(e);
        render_file(e, config, &d, current_year())
    } else {
        render_file(e, config, &no_details(), 0)
    }
}

/// Joins the blocks of the targets named `names`: `None` for a target that
/// failed. With more than one target each block stands under a header and a
/// blank line separates two blocks; one trailing newline is taken off.
pub fn assemble_output(names: &Vec<String>, blocks: &Vec<Option<String>>) -> (r: String)
    requires
        blocks@.len() == names@.len(),
    ensures
        r@ == assembled(string_views(names@), block_views(blocks@)),
{
    let ghost ns = string_views(names@);
    let ghost bs = block_views(blocks@);
    let headers = names.len() > 1;
    let mut out = String::new();
    let mut i: usize = 0;
    while i < names.len()
        invariant
            ns == string_views(names@),
            bs == block_views(blocks@),
            blocks@.len() == names@.len(),
            headers == (names@.len() > 1),
            i <= names@.len(),
            out@ == joined_upto(ns, bs, headers, i as nat),
        decreases names@.len() - i,
    {
        match &blocks[i] {
            None => {},
            Some(b) => {
                let ghost prev = out@;
                if crate::text::char_count(out.as_str()) > 0 {
                    push_char(&mut out, '\n');
                }
                if headers {
                    push_seq(&mut out, names[i].as_str());
                    push_char(&mut out, ':');
                    push_char(&mut out, '\n');
                }
                push_seq(&mut out, b.as_str());
                assert(out@ =~= joined_upto(ns, bs, headers, (i + 1) as nat));
            },
        }
        i = i + 1;
    }
    trim_trailing_newline(out)
}

pub open spec fn block_views(blocks: Seq<Option<String>>) -> Seq<Option<Seq<char>>> {
    Seq::new(blocks.len(), |i: int| opt_view(blocks[i]))
}

/// `s` without one trailing newline.
pub fn trim_trailing_newline(s: String) -> (r: String)
    ensures
        r@ == trim_newline(s@),
{
    let n = crate::text::char_count(s.as_str());
    if n > 0 && s.as_str().get_char(n - 1) == '\n' {
        let t = s.as_str().substring_char(0, n - 1);
        let mut r = String::new();
        push_seq(&mut r, t);
        assert(r@ =~= trim_newline(s@));
        r
    } else {
        s
    }
}

/// Without `show_all`, a listing shows exactly the entries whose names do
/// not start with `.`, each once, in the sort order.
pub proof fn lemma_hidden_entries_left_out(entries: Seq<DirectoryEntry>, order: Seq<usize>)
    requires
        listing_order(entries, false, order),
    ensures
        forall|q: int| 0 <= q < order.len() ==> !is_dot_name(#[trigger] entries[order[q] as int].name@),
        forall|i: usize| i < entries.len() && !is_dot_name(entries[i as int].name@) ==> #[trigger] order.contains(i),
        forall|a: int, b: int| 0 <= a < b < order.len() ==> order[a] != order[b],
        sorted_stably(keys_of(entry_names(entries)), order),
{
    assert forall|i: usize| i < entries.len() && !is_dot_name(entries[i as int].name@) implies #[trigger] order.contains(i) by {
        assert(is_shown(entries[i as int], false));
    }
}

/// With `show_all`, every entry, `.` and `..` among them, is listed once,
/// under the same sort order as the others.
pub proof fn lemma_show_all_lists_every_entry(entries: Seq<DirectoryEntry>, order: Seq<usize>)
    requires
        listing_order(entries, true, order),
    ensures
        forall|i: usize| i < entries.len() ==> #[trigger] order.contains(i),
        forall|a: int, b: int| 0 <= a < b < order.len() ==> order[a] != order[b],
        forall|q: int| 0 <= q < order.len() ==> order[q] < entries.len(),
        sorted_stably(keys_of(entry_names(entries)), order),
{
    assert forall|i: usize| i < entries.len() implies #[trigger] order.contains(i) by {
        assert(is_shown(entries[i as int], true));
    }
}

/// A long listing of a directory with nothing to show is the header
/// `total 0` alone.
pub proof fn lemma_empty_long_listing(
    entries: Seq<DirectoryEntry>,
    config: LsConfig,
    details: Seq<EntryDetails>,
    tw: u16,
    y: i32,
    name: Seq<char>,
)
    requires
        config.long_format,
    ensures
        directory_text(entries, seq![], config, details, tw, y) == seq!['t', 'o', 't', 'a', 'l', ' ', '0', '\n'],
        assembled(seq![name], seq![Some(directory_text(entries, seq![], config, details, tw, y))])
            == seq!['t', 'o', 't', 'a', 'l', ' ', '0'],
{
    let text = directory_text(entries, seq![], config, details, tw, y);
    assert(picked(entries, seq![]).len() == 0);
    assert(crate::text::dec_seq(0) == seq!['0']);
    assert(text =~= seq!['t', 'o', 't', 'a', 'l', ' ', '0', '\n']);
    let j = joined_upto(seq![name], seq![Some(text)], false, 1);
    assert(joined_upto(seq![name], seq![Some(text)], false, 0).len() == 0);
    assert(j =~= text);
    assert(trim_newline(j) =~= seq!['t', 'o', 't', 'a', 'l', ' ', '0']);
}

/// The diagnostics of the first `k` targets number those that failed.
proof fn lemma_one_failure_upto(targets: Seq<Target>, m: int, k: nat)
    requires
        0 <= m < targets.len(),
        k <= targets.len(),
        targets[m].listing is Failed,
        forall|i: int| 0 <= i < targets.len() && i != m ==> !(#[trigger] targets[i].listing is Failed),
    ensures
        k <= m ==> diagnostics_upto(targets, k).len() == 0,
        k > m ==> diagnostics_upto(targets, k) == seq![
            failure_text(targets[m].name@, targets[m].listing->Failed_0@),
        ],
    decreases k,
{
    if k > 0 {
        lemma_one_failure_upto(targets, m, (k - 1) as nat);
        if k - 1 == m {
            assert(diagnostics_upto(targets, k) =~= seq![
                failure_text(targets[m].name@, targets[m].listing->Failed_0@),
            ]);
        } else {
            assert(!(targets[k - 1].listing is Failed));
        }
    }
}

/// Where exactly one of several targets cannot be read, the listing gives
/// exactly one diagnostic, naming that target, and every other target has
/// a block under its own header.
pub proof fn lemma_one_missing_target(targets: Seq<Target>, m: int, blocks: Seq<Option<Seq<char>>>)
    requires
        0 <= m < targets.len(),
        targets[m].listing is Failed,
        forall|i: int| 0 <= i < targets.len() && i != m ==> !(#[trigger] targets[i].listing is Failed),
        blocks.len() == targets.len(),
        forall|i: int| 0 <= i < targets.len() ==> (#[trigger] blocks[i] is None <==> targets[i].listing is Failed),
    ensures
        diagnostics_upto(targets, targets.len()) == seq![
            failure_text(targets[m].name@, targets[m].listing->Failed_0@),
        ],
        forall|i: int| 0 <= i < targets.len() && i != m ==> blocks[i] is Some,
        blocks[m] is None,
{
    lemma_one_failure_upto(targets, m, targets.len());
    assert forall|i: int| 0 <= i < targets.len() && i != m implies blocks[i] is Some by {
        assert(!(targets[i].listing is Failed));
    }
}

/// Lists every target: the text of the whole listing, and one diagnostic
/// for each target that could not be read, apart from it.
pub fn list_targets(targets: &Vec<Target>, config: LsConfig) -> (r: (String, Vec<String>))
    ensures
        string_views(r.1@) == diagnostics_upto(targets@, targets@.len()),
        exists|blocks: Seq<Option<Seq<char>>>|
            #![trigger blocks.len()]
            {
                &&& blocks.len() == targets@.len()
                &&& forall|i: int|
                    0 <= i < targets@.len() ==> (#[trigger] blocks[i] is None
                        <==> targets@[i].listing is Failed)
                &&& forall|i: int|
                    0 <= i < targets@.len() && #[trigger] blocks[i] is Some ==> is_block_of(
                        targets@[i].listing,
                        config,
                        blocks[i]->0,
                    )
                &&& r.0@ == assembled(target_names(targets@), blocks)
            },
{
    let ghost ts = targets@;
    let mut names: Vec<String> = Vec::new();
    let mut blocks: Vec<Option<String>> = Vec::new();
    let mut diags: Vec<String> = Vec::new();
    let mut i: usize = 0;
    while i < targets.len()
        invariant
            ts == targets@,
            i <= ts.len(),
            names@.len() == i,
            blocks@.len() == i,
            forall|j: int| 0 <= j < i ==> names@[j]@ == ts[j].name@,
            forall|j: int| 0 <= j < i ==> (#[trigger] blocks@[j] is None <==> ts[j].listing is Failed),
            forall|j: int| 0 <= j < i && #[trigger] blocks@[j] is Some ==> is_block_of(ts[j].listing, config, blocks@[j]->0@),
            string_views(diags@) == diagnostics_upto(ts, i as nat),
        decreases ts.len() - i,
    {
        let t = &targets[i];
        names.push(t.name.clone());
        match &t.listing {
            Listing::File(e) => blocks.push(Some(list_file(e, config))),
            Listing::Directory(es) => blocks.push(Some(list_directory(es, config))),
            Listing::Failed(msg) => {
                blocks.push(None);
                let mut d = String::new();
                push_char(&mut d, 'l');
                push_char(&mut d, 's');
                push_char(&mut d, ':');
                push_char(&mut d, ' ');
                push_seq(&mut d, t.name.as_str());
                push_char(&mut d, ':');
                push_char(&mut d, ' ');
                push_seq(&mut d, msg.as_str());
                assert(d@ =~= failure_text(ts[i as int].name@, msg@));
                let ghost was = string_views(diags@);
                diags.push(d);
                assert(string_views(diags@) =~= was.push(failure_text(ts[i as int].name@, msg@)));
            },
        }
        i = i + 1;
    }
    let text = assemble_output(&names, &blocks);
    proof {
        assert(string_views(names@) =~= target_names(ts));
        let bs = block_views(blocks@);
        assert(bs.len() == ts.len());
        assert forall|j: int| 0 <= j < ts.len() implies (#[trigger] bs[j] is None <==> ts[j].listing is Failed) by {
            assert(blocks@[j] is None <==> ts[j].listing is Failed);
        }
        assert forall|j: int| 0 <= j < ts.len() && #[trigger] bs[j] is Some implies is_block_of(ts[j].listing, config, bs[j]->0) by {
            assert(blocks@[j] is Some);
        }
    }
    (text, diags)
}

} // verus!
