//! The long format: one fixed-field line per entry, and the block total
//! above a directory's lines.
use vstd::prelude::*;
use chrono::{Datelike, TimeZone, Timelike};
use crate::entry::{
    colorize, file_type_char, kind_from_mode, kind_of_mode, perm_spec, permissions_string,
    push_suffix, style_of, style_spec, styled, suffix_spec, type_char_of, DirectoryEntry,
    EntryKind,
};
use crate::text::{
    dec_seq, decimal, left_padded, pad_left, pad_right, push_char, push_decimal, push_seq,
    right_padded,
};

verus! {

/// A moment in local time, as the fields that a listing shows.
#[derive(Clone, Copy, Debug, PartialEq, Eq, Structural)]
pub struct DateStamp {
    pub year: i32,
    pub month: u32,
    pub day: u32,
    pub hour: u32,
    pub minute: u32,
}

impl DateStamp {
    pub open spec fn wf(self) -> bool {
        &&& 1 <= self.month <= 12
        &&& 1 <= self.day <= 31
        &&& self.hour <= 23
        &&& self.minute <= 59
    }
}

/// Relies on chrono's `Local.timestamp_opt(secs, 0).single()` and the
/// `Datelike` / `Timelike` accessors: the local date and time of a Unix
/// timestamp, with the field ranges that chrono documents. chrono gives a
/// date for every timestamp within its range of years (about 262,000 years
/// either side of year 0), which holds the one stated here. The fields
/// depend on the machine's time zone, so nothing more is known of them.
#[verifier::external_body]
pub(crate) fn local_date_time(secs: i64) -> (r: Option<DateStamp>)
    ensures
        r matches Some(d) ==> d.wf(),
        -8_000_000_000_000 <= secs <= 8_000_000_000_000 ==> r is Some,
{
    match chrono::Local.timestamp_opt(secs, 0).single() {
        Some(d) => Some(
            DateStamp {
                year: d.year(),
                month: d.month(),
                day: d.day(),
                hour: d.hour(),
                minute: d.minute(),
            },
        ),
        None => None,
    }
}

/// Relies on chrono's `Local::now().year()`: the current year in local time.
#[verifier::external_body]
pub(crate) fn current_year() -> (r: i32) {
    chrono::Local::now().year()
}

/// Relies on users::get_user_by_uid: the name of a user id in the system's
/// user database, if it has one.
#[verifier::external_body]
pub(crate) fn user_name(uid: u32) -> (r: Option<String>) {
    match users::get_user_by_uid(uid) {
        Some(u) => Some(u.name().to_string_lossy().into_owned()),
        None => None,
    }
}

/// Relies on users::get_group_by_gid: the name of a group id in the
/// system's group database, if it has one.
#[verifier::external_body]
pub(crate) fn group_name(gid: u32) -> (r: Option<String>) {
    match users::get_group_by_gid(gid) {
        Some(g) => Some(g.name().to_string_lossy().into_owned()),
        None => None,
    }
}

/// What chrono's `NaiveDateTime::format` writes for a date and time (the
/// seconds zero) and a format pattern; `None` where chrono has no such date.
pub uninterp spec fn chrono_formatted(
    year: i32,
    month: u32,
    day: u32,
    hour: u32,
    minute: u32,
    pattern: Seq<char>,
) -> Option<Seq<char>>;

/// The pattern for a date in the current year: month, day, hour and minute.
pub open spec fn recent_pattern() -> Seq<char> {
    seq!['%', 'b', ' ', '%', 'e', ' ', '%', 'H', ':', '%', 'M']
}

/// The pattern for a date in another year: month, day, two spaces, year.
pub open spec fn older_pattern() -> Seq<char> {
    seq!['%', 'b', ' ', '%', 'e', ' ', ' ', '%', 'Y']
}

/// Relies on chrono's `NaiveDate::from_ymd_opt`, `NaiveDate::and_hms_opt`
/// and `NaiveDateTime::format`: the text of a date and time under one of the
/// two patterns of a listing, a function of its arguments alone. Both
/// patterns hold only valid specifiers, so writing them cannot fail.
#[verifier::external_body]
fn chrono_format(d: DateStamp, pattern: &str) -> (r: Option<String>)
    requires
        pattern@ == recent_pattern() || pattern@ == older_pattern(),
    ensures
        opt_view(r) == chrono_formatted(d.year, d.month, d.day, d.hour, d.minute, pattern@),
{
    match chrono::NaiveDate::from_ymd_opt(d.year, d.month, d.day) {
        Some(date) => match date.and_hms_opt(d.hour, d.minute, 0) {
            Some(t) => Some(t.format(pattern).to_string()),
            None => None,
        },
        None => None,
    }
}

/// The pattern of a date: with the time in the current year, else with the
/// year.
pub open spec fn pattern_for(d: DateStamp, now_year: i32) -> Seq<char> {
    if d.year == now_year {
        recent_pattern()
    } else {
        older_pattern()
    }
}

/// The date field from chrono's text for the date: that text, or `?` where
/// there is none.
pub open spec fn date_from_text(text: Option<Seq<char>>) -> Seq<char> {
    match text {
        Some(t) => t,
        None => seq!['?'],
    }
}

/// The date field for a timestamp that may have no local time: `?` for
/// none, else the date as chrono writes it under the pattern of its year.
pub open spec fn date_field(d: Option<DateStamp>, now_year: i32) -> Seq<char> {
    match d {
        Some(d) => date_from_text(
            chrono_formatted(d.year, d.month, d.day, d.hour, d.minute, pattern_for(d, now_year)),
        ),
        None => seq!['?'],
    }
}

/// An owner or group: its name where the lookup found one, else the id.
pub open spec fn id_field(name: Option<Seq<char>>, id: u32) -> Seq<char> {
    match name {
        Some(n) => n,
        None => dec_seq(id as nat),
    }
}

pub open spec fn opt_view(o: Option<String>) -> Option<Seq<char>> {
    match o {
        Some(s) => Some(s@),
        None => None,
    }
}

pub open spec fn is_device(k: EntryKind) -> bool {
    k == EntryKind::CharDevice || k == EntryKind::BlockDevice
}

/// The size field: `major, minor` for a device, else the size in bytes.
pub open spec fn size_field(e: DirectoryEntry) -> Seq<char> {
    if is_device(kind_of_mode(e.mode)) {
        left_padded(dec_seq(((e.rdev >> 8u64) & 0xffu64) as nat), 3) + seq![',', ' '] + left_padded(
            dec_seq((e.rdev & 0xffu64) as nat),
            3,
        )
    } else {
        left_padded(dec_seq(e.size as nat), 8)
    }
}

/// The name field: the styled name, then ` -> target` for a symbolic link
/// whose target could be read, or the type suffix for any other entry.
pub open spec fn name_field(e: DirectoryEntry) -> Seq<char> {
    styled(style_spec(e), e.name@) + if kind_of_mode(e.mode) == EntryKind::Symlink {
        match e.link_target {
            Some(t) => seq![' ', '-', '>', ' '] + t@,
            None => seq![],
        }
    } else {
        suffix_spec(e)
    }
}

/// The long-format line of `e`, given the owner and group names that the
/// lookups gave, its local modification time, and the current year.
pub open spec fn long_line(
    e: DirectoryEntry,
    user: Option<Seq<char>>,
    group: Option<Seq<char>>,
    date: Option<DateStamp>,
    now_year: i32,
) -> Seq<char> {
    seq![type_char_of(kind_of_mode(e.mode))] + perm_spec(e.mode) + seq![' '] + left_padded(
        dec_seq(e.nlink as nat),
        2,
    ) + seq![' '] + right_padded(id_field(user, e.uid), 8) + seq![' '] + right_padded(
        id_field(group, e.gid),
        8,
    ) + seq![' '] + size_field(e) + seq![' '] + date_field(date, now_year) + seq![' '] + name_field(
        e,
    )
}

/// The entries that `order` picks, in its order.
pub open spec fn picked(entries: Seq<DirectoryEntry>, order: Seq<usize>) -> Seq<DirectoryEntry> {
    Seq::new(order.len(), |q: int| entries[order[q] as int])
}

/// The sum of the 512-byte block counts of the first `k` entries.
pub open spec fn blocks_upto(entries: Seq<DirectoryEntry>, k: nat) -> nat
    decreases k,
{
    if k == 0 {
        0
    } else {
        blocks_upto(entries, (k - 1) as nat) + entries[k - 1].blocks as nat
    }
}

/// The header of a long listing: the blocks in 1024-byte units, rounded up.
pub open spec fn total_line(entries: Seq<DirectoryEntry>) -> Seq<char> {
    seq!['t', 'o', 't', 'a', 'l', ' '] + dec_seq((blocks_upto(entries, entries.len()) + 1) / 2)
}

/// The date field from chrono's text for the date.
pub fn date_field_from(text: Option<String>) -> (r: String)
    ensures
        r@ == date_from_text(opt_view(text)),
{
    match text {
        Some(t) => t,
        None => {
            let mut s = String::new();
            push_char(&mut s, '?');
            assert(s@ =~= seq!['?']);
            s
        },
    }
}

/// The date field of a listing.
pub fn format_date(d: Option<DateStamp>, now_year: i32) -> (r: String)
    ensures
        r@ == date_field(d, now_year),
{
    match d {
        None => date_field_from(None),
        Some(d) => {
            let recent = "%b %e %H:%M";
            let older = "%b %e  %Y";
            proof {
                reveal_strlit("%b %e %H:%M");
                reveal_strlit("%b %e  %Y");
                assert(recent@ =~= recent_pattern());
                assert(older@ =~= older_pattern());
            }
            let pattern = if d.year == now_year { recent } else { older };
            date_field_from(chrono_format(d, pattern))
        },
    }
}

fn push_id_field(s: &mut String, name: &Option<String>, id: u32)
    ensures
        final(s)@ == old(s)@ + right_padded(id_field(opt_view(*name), id), 8),
{
    let text = match name {
        Some(n) => n.clone(),
        None => decimal(id as u64),
    };
    let p = pad_right(text.as_str(), 8);
    push_seq(s, p.as_str());
}

fn push_size_field(s: &mut String, e: &DirectoryEntry)
    ensures
        final(s)@ == old(s)@ + size_field(*e),
{
    let k = kind_from_mode(e.mode);
    let ghost start = s@;
    if k == EntryKind::CharDevice || k == EntryKind::BlockDevice {
        let major = decimal((e.rdev >> 8) & 0xff);
        let minor = decimal(e.rdev & 0xff);
        push_seq(s, pad_left(major.as_str(), 3).as_str());
        push_char(s, ',');
        push_char(s, ' ');
        push_seq(s, pad_left(minor.as_str(), 3).as_str());
    } else {
        push_seq(s, pad_left(decimal(e.size).as_str(), 8).as_str());
    }
    assert(s@ =~= start + size_field(*e));
}

fn push_name_field(s: &mut String, e: &DirectoryEntry)
    ensures
        final(s)@ == old(s)@ + name_field(*e),
{
    let ghost start = s@;
    let styled_name = colorize(e.name.as_str(), style_of(e));
    push_seq(s, styled_name.as_str());
    if kind_from_mode(e.mode) == EntryKind::Symlink {
        match &e.link_target {
            Some(t) => {
                push_char(s, ' ');
                push_char(s, '-');
                push_char(s, '>');
                push_char(s, ' ');
                push_seq(s, t.as_str());
            },
            None => {},
        }
    } else {
        push_suffix(s, e);
    }
    assert(s@ =~= start + name_field(*e));
}

/// The long-format line of `e`, from the results of the owner and group
/// lookups, the entry's local modification time and the current year.
pub fn long_format_line_from(
    e: &DirectoryEntry,
    user: &Option<String>,
    group: &Option<String>,
    date: Option<DateStamp>,
    now_year: i32,
) -> (r: String)
    ensures
        r@ == long_line(*e, opt_view(*user), opt_view(*group), date, now_year),
{
    let mut s = String::new();
    push_char(&mut s, file_type_char(kind_from_mode(e.mode)));
    push_seq(&mut s, permissions_string(e.mode).as_str());
    push_char(&mut s, ' ');
    push_seq(&mut s, pad_left(decimal(e.nlink).as_str(), 2).as_str());
    push_char(&mut s, ' ');
    push_id_field(&mut s, user, e.uid);
    push_char(&mut s, ' ');
    push_id_field(&mut s, group, e.gid);
    push_char(&mut s, ' ');
    push_size_field(&mut s, e);
    push_char(&mut s, ' ');
    push_seq(&mut s, format_date(date, now_year).as_str());
    push_char(&mut s, ' ');
    push_name_field(&mut s, e);
    assert(s@ =~= long_line(*e, opt_view(*user), opt_view(*group), date, now_year));
    s
}

/// The long-format line of `e`, with the owner and group looked up in the
/// system's databases and the time shown in the machine's time zone.
pub fn long_format_line(e: &DirectoryEntry) -> (r: String)
    ensures
        exists|u: Option<Seq<char>>, g: Option<Seq<char>>, d: Option<DateStamp>, y: i32|
            r@ == long_line(*e, u, g, d, y),
{
    let user = user_name(e.uid);
    let group = group_name(e.gid);
    let date = local_date_time(e.mtime);
    let now = current_year();
    long_format_line_from(e, &user, &group, date, now)
}

/// The `total` header of a long listing of the entries that `order` picks.
pub fn total_header(entries: &Vec<DirectoryEntry>, order: &Vec<usize>) -> (r: String)
    requires
        forall|q: int| 0 <= q < order@.len() ==> order@[q] < entries@.len(),
    ensures
        r@ == total_line(picked(entries@, order@)),
{
    let ghost sel = picked(entries@, order@);
    let mut sum: u128 = 0;
    let mut i: usize = 0;
    while i < order.len()
        invariant
            sel == picked(entries@, order@),
            forall|q: int| 0 <= q < order@.len() ==> order@[q] < entries@.len(),
            i <= order@.len(),
            sum == blocks_upto(sel, i as nat),
            sum <= i * 0xffff_ffff_ffff_ffffu128,
        decreases order@.len() - i,
    {
        let b = entries[order[i]].blocks;
        assert(sel[i as int].blocks == b);
        assert(sum + b <= (i + 1) * 0xffff_ffff_ffff_ffffu128) by (nonlinear_arith)
            requires
                sum <= i * 0xffff_ffff_ffff_ffffu128,
                b <= 0xffff_ffff_ffff_ffffu64,
        {
        }
        assert(i + 1 <= 0xffff_ffff_ffff_ffffu64);
        assert((i + 1) * 0xffff_ffff_ffff_ffffu128 <= 0xffff_ffff_ffff_ffffu128 * 0xffff_ffff_ffff_ffffu128) by (nonlinear_arith)
            requires
                i + 1 <= 0xffff_ffff_ffff_ffffu64,
        {
        }
        sum = sum + b as u128;
        i = i + 1;
    }
    let mut s = String::new();
    push_char(&mut s, 't');
    push_char(&mut s, 'o');
    push_char(&mut s, 't');
    push_char(&mut s, 'a');
    push_char(&mut s, 'l');
    push_char(&mut s, ' ');
    push_decimal(&mut s, sum / 2 + sum % 2);
    assert(sum / 2 + sum % 2 == (sum + 1) / 2);
    assert(s@ =~= total_line(sel));
    s
}

} // verus!
