use vstd::prelude::*;
use chrono::Datelike;
use crate::classify::{category_name, classify, detect_category};
use crate::paths::{extension_of, file_name_part, is_file_name, split_name, split_path};
use crate::text::{
    clean_ext, clean_extension, push_char, push_decimal, signed_decimal, str_eq,
    two_digits, ascii_lower,
};

verus! {

/// A snapshot of one file: where it is, what it is called, and its metadata.
/// Timestamps are milliseconds since the Unix epoch; an unknown one is zero.
#[derive(Clone, Debug)]
pub struct FileEntry {
    pub path: String,
    pub name: String,
    pub extension: String,
    pub size: u64,
    pub created_at: u64,
    pub modified_at: u64,
    pub mime_type: String,
}

impl FileEntry {
    /// A field-for-field copy.
    pub fn snapshot(&self) -> (r: FileEntry)
        ensures
            r == *self,
    {
        FileEntry {
            path: self.path.clone(),
            name: self.name.clone(),
            extension: self.extension.clone(),
            size: self.size,
            created_at: self.created_at,
            modified_at: self.modified_at,
            mime_type: self.mime_type.clone(),
        }
    }
}

#[derive(Clone, Copy, Debug, PartialEq, Eq, Structural)]
pub enum RuleType {
    ByType,
    ByDate,
    Combined,
    Custom,
}

#[derive(Clone, Copy, Debug, PartialEq, Eq, Structural)]
pub enum DateField {
    Created,
    Modified,
}

#[derive(Clone, Copy, Debug, PartialEq, Eq, Structural)]
pub enum CombinedOrder {
    DateType,
    TypeDate,
}

/// One entry of a custom mapping: files with `extension` (lower case, no dot) go to
/// the folder `folder`.
#[derive(Clone, Debug)]
pub struct FolderMapping {
    pub extension: String,
    pub folder: String,
}

#[derive(Clone, Debug)]
pub struct RuleOptions {
    pub date_field: DateField,
    pub combined_order: CombinedOrder,
    /// Looked up by the file's normalised extension; the first entry that matches wins, so
    /// with unique extensions it reads as a map (`lemma_mapping_as_map`).
    pub custom_mappings: Vec<FolderMapping>,
}

#[derive(Clone, Debug)]
pub struct OrganizeRule {
    pub rule_type: RuleType,
    pub options: RuleOptions,
}

/// The folder that the custom mapping `ms` gives the extension `e`, if any: the first
/// entry whose extension is `e`.
pub open spec fn lookup_folder(ms: Seq<FolderMapping>, e: Seq<char>) -> Option<Seq<char>>
    decreases ms.len(),
{
    if ms.len() == 0 {
        None
    } else {
        match lookup_folder(ms.drop_last(), e) {
            Some(f) => Some(f),
            None => if ms.last().extension@ == e {
                Some(ms.last().folder@)
            } else {
                None
            },
        }
    }
}

/// Whether no two entries of a custom mapping share an extension, as in a map.
pub open spec fn mapping_keys_unique(ms: Seq<FolderMapping>) -> bool {
    forall|i: int, j: int| 0 <= i < j < ms.len() ==> ms[i].extension@ != ms[j].extension@
}

/// A custom mapping read as a map: where no two entries share an extension, each
/// entry's extension leads to that entry's folder, and an extension of no entry leads
/// nowhere.
pub proof fn lemma_mapping_as_map(ms: Seq<FolderMapping>, e: Seq<char>)
    requires
        mapping_keys_unique(ms),
    ensures
        forall|i: int|
            0 <= i < ms.len() && #[trigger] ms[i].extension@ == e ==> lookup_folder(ms, e) == Some(
                ms[i].folder@,
            ),
        (forall|i: int| 0 <= i < ms.len() ==> #[trigger] ms[i].extension@ != e) ==> lookup_folder(ms, e) is None,
    decreases ms.len(),
{
    if ms.len() > 0 {
        let init = ms.drop_last();
        assert forall|i: int, j: int| 0 <= i < j < init.len() implies init[i].extension@ != init[j].extension@ by {
            assert(init[i] == ms[i] && init[j] == ms[j]);
        }
        lemma_mapping_as_map(init, e);
        assert forall|i: int| 0 <= i < ms.len() && #[trigger] ms[i].extension@ == e implies lookup_folder(ms, e) == Some(
            ms[i].folder@,
        ) by {
            if i < ms.len() - 1 {
                assert(init[i] == ms[i]);
                assert(ms[i].extension@ != ms[ms.len() - 1].extension@);
            } else {
                assert forall|k: int| 0 <= k < init.len() implies #[trigger] init[k].extension@ != e by {
                    assert(init[k] == ms[k]);
                }
            }
        }
        if forall|i: int| 0 <= i < ms.len() ==> #[trigger] ms[i].extension@ != e {
            assert forall|k: int| 0 <= k < init.len() implies #[trigger] init[k].extension@ != e by {
                assert(init[k] == ms[k]);
                assert(ms[k].extension@ != e);
            }
            assert(ms[ms.len() - 1].extension@ != e);
        }
    }
}

/// The timestamp that the rule's date field selects.
pub open spec fn timestamp_of(entry: FileEntry, field: DateField) -> u64 {
    match field {
        DateField::Created => entry.created_at,
        DateField::Modified => entry.modified_at,
    }
}

/// Whether placing `entry` under `rule` needs the calendar date of its timestamp.
pub open spec fn needs_date(entry: FileEntry, rule: OrganizeRule) -> bool {
    lookup_folder(rule.options.custom_mappings@, clean_ext(entry.extension@)) is None && (
    rule.rule_type == RuleType::ByDate || rule.rule_type == RuleType::Combined)
}

/// The category folder name of a file.
pub open spec fn category_segment(entry: FileEntry) -> Seq<char> {
    category_name(classify(ascii_lower(clean_ext(entry.extension@)), entry.mime_type@))
}

/// The folder segments under the root for `entry` under `rule`, where its selected
/// timestamp falls in month `month` of year `year`: a custom mapping hit wins for every
/// rule type; otherwise the segments follow the rule type.
pub open spec fn segments_for(entry: FileEntry, rule: OrganizeRule, year: int, month: int) -> Seq<
    Seq<char>,
> {
    match lookup_folder(rule.options.custom_mappings@, clean_ext(entry.extension@)) {
        Some(folder) => seq![folder],
        None => {
            let cat = category_segment(entry);
            let y = signed_decimal(year);
            let m = two_digits(month as nat);
            match rule.rule_type {
                RuleType::ByType => seq![cat],
                RuleType::ByDate => seq![y, m],
                RuleType::Combined => match rule.options.combined_order {
                    CombinedOrder::DateType => seq![y, m, cat],
                    CombinedOrder::TypeDate => seq![cat, y, m],
                },
                RuleType::Custom => seq![cat],
            }
        },
    }
}

/// The largest timestamp, in milliseconds since the epoch, whose local calendar month is
/// always had: about 253,000 years, inside chrono's range of years up to 262,143.
pub const MAX_MILLIS: u64 = 8_000_000_000_000_000;

/// Milliseconds in a day.
pub open spec fn day_millis() -> int {
    86_400_000
}

/// The (year, month) of the proleptic Gregorian calendar on day `days` counted from
/// 1970-01-01, for days on or after 0000-03-01.
pub open spec fn civil_year_month(days: int) -> (int, int) {
    let z = days + 719468;
    let era = z / 146097;
    let doe = z - era * 146097;
    let yoe = (doe - doe / 1460 + doe / 36524 - doe / 146096) / 365;
    let doy = doe - (365 * yoe + yoe / 4 - yoe / 100);
    let mp = (5 * doy + 2) / 153;
    let m = if mp < 10 {
        mp + 3
    } else {
        mp - 9
    };
    (if m <= 2 {
        yoe + era * 400 + 1
    } else {
        yoe + era * 400
    }, m)
}

/// Whether month `month` of year `year` is the calendar month of the instant `millis`
/// seen from some time zone, that is, shifted by less than a day either way.
pub open spec fn near_month(millis: int, year: int, month: int) -> bool {
    exists|off: int|
        -day_millis() < off < day_millis() && #[trigger] civil_year_month((millis + off) / day_millis())
            == (year, month)
}

/// Relies on chrono: `DateTime::from_timestamp_millis` (a value for every count within
/// its calendar's range), then `with_timezone(&Local)`, whose offset from UTC is under a
/// day, and the `year` and `month` of that local time in the Gregorian calendar. The zone
/// is the machine's, so the month is stated up to that offset.
#[verifier::external_body]
fn local_year_month(millis: u64) -> (r: Option<(i32, u32)>)
    ensures
        millis <= MAX_MILLIS ==> r is Some,
        r matches Some(ym) ==> 1 <= ym.1 <= 12 && near_month(millis as int, ym.0 as int, ym.1 as int),
{
    i64::try_from(millis).ok().and_then(chrono::DateTime::from_timestamp_millis).map(
        |t| {
            let local = t.with_timezone(&chrono::Local);
            (local.year(), local.month())
        },
    )
}

/// The month of a calendar day is one of the twelve.
pub proof fn lemma_civil_month_range(days: int)
    requires
        days >= -719468,
    ensures
        1 <= civil_year_month(days).1 <= 12,
{
    let z = days + 719468;
    let era = z / 146097;
    let doe = z - era * 146097;
    assert(0 <= doe < 146097);
    let yoe = (doe - doe / 1460 + doe / 36524 - doe / 146096) / 365;
    assert(0 <= yoe <= 399) by (nonlinear_arith)
        requires
            0 <= doe < 146097,
            yoe == (doe - doe / 1460 + doe / 36524 - doe / 146096) / 365,
    {
    }
    let doy = doe - (365 * yoe + yoe / 4 - yoe / 100);
    assert(0 <= doy <= 365) by (nonlinear_arith)
        requires
            0 <= doe < 146097,
            yoe == (doe - doe / 1460 + doe / 36524 - doe / 146096) / 365,
            doy == doe - (365 * yoe + yoe / 4 - yoe / 100),
    {
    }
    let mp = (5 * doy + 2) / 153;
    assert(0 <= mp <= 11);
}

/// Looks up the folder for a normalised extension in a custom mapping.
pub fn find_folder(mappings: &Vec<FolderMapping>, extension: &str) -> (r: Option<usize>)
    ensures
        match r {
            Some(i) => i < mappings@.len() && lookup_folder(mappings@, extension@) == Some(
                mappings@[i as int].folder@,
            ),
            None => lookup_folder(mappings@, extension@) is None,
        },
{
    let mut found: Option<usize> = None;
    let mut i: usize = 0;
    while i < mappings.len()
        invariant
            i <= mappings@.len(),
            match found {
                Some(k) => k < i && lookup_folder(mappings@.subrange(0, i as int), extension@)
                    == Some(mappings@[k as int].folder@),
                None => lookup_folder(mappings@.subrange(0, i as int), extension@) is None,
            },
        decreases mappings.len() - i,
    {
        assert(mappings@.subrange(0, i + 1).drop_last() =~= mappings@.subrange(0, i as int));
        if found.is_none() && str_eq(mappings[i].extension.as_str(), extension) {
            found = Some(i);
        }
        i = i + 1;
    }
    assert(mappings@.subrange(0, i as int) =~= mappings@);
    found
}

fn year_text(year: i32) -> (r: String)
    ensures
        r@ == signed_decimal(year as int),
{
    let mut r = String::new();
    if year < 0 {
        push_char(&mut r, '-');
        push_decimal(&mut r, (-(year as i64)) as u64);
    } else {
        push_decimal(&mut r, year as u64);
    }
    r
}

fn month_text(month: u32) -> (r: String)
    ensures
        r@ == two_digits(month as nat),
{
    let mut r = String::new();
    if month < 10 {
        push_char(&mut r, '0');
    }
    push_decimal(&mut r, month as u64);
    r
}

/// The folder segments for `entry` under `rule`, given the calendar year and month of
/// its selected timestamp.
pub fn plan_segments(entry: &FileEntry, rule: &OrganizeRule, year: i32, month: u32) -> (r: Vec<
    String,
>)
    ensures
        r.deep_view() == segments_for(*entry, *rule, year as int, month as int),
{
    let extension = clean_extension(entry.extension.as_str());
    match find_folder(&rule.options.custom_mappings, extension.as_str()) {
        Some(i) => {
            let v = vec![rule.options.custom_mappings[i].folder.clone()];
            assert(v.deep_view() =~= segments_for(*entry, *rule, year as int, month as int));
            v
        },
        None => {
            let cat = detect_category(extension.as_str(), entry.mime_type.as_str()).name();
            let v = match rule.rule_type {
                RuleType::ByType => vec![cat],
                RuleType::ByDate => vec![year_text(year), month_text(month)],
                RuleType::Combined => match rule.options.combined_order {
                    CombinedOrder::DateType => vec![year_text(year), month_text(month), cat],
                    CombinedOrder::TypeDate => vec![cat, year_text(year), month_text(month)],
                },
                RuleType::Custom => vec![cat],
            };
            assert(v.deep_view() =~= segments_for(*entry, *rule, year as int, month as int));
            v
        },
    }
}

/// The folder segments for `entry` under `rule`, in order from the root. The date, where
/// the rule needs one, is the local calendar month of the timestamp that the rule's date
/// field selects; there is a result whenever that timestamp is at most `MAX_MILLIS`, and
/// none only when the rule needs a date and the timestamp lies outside the calendar's
/// range.
pub fn target_segment(entry: &FileEntry, rule: &OrganizeRule) -> (r: Option<Vec<String>>)
    ensures
        !needs_date(*entry, *rule) ==> (r matches Some(v) && v.deep_view() == segments_for(
            *entry,
            *rule,
            0,
            0,
        )),
        needs_date(*entry, *rule) && timestamp_of(*entry, rule.options.date_field) <= MAX_MILLIS
            ==> r is Some,
        r matches Some(v) ==> exists|y: int, m: int|
            1 <= m <= 12 && near_month(timestamp_of(*entry, rule.options.date_field) as int, y, m)
                && v.deep_view() == #[trigger] segments_for(*entry, *rule, y, m),
{
    let extension = clean_extension(entry.extension.as_str());
    let dated = find_folder(&rule.options.custom_mappings, extension.as_str()).is_none() && (
    rule.rule_type == RuleType::ByDate || rule.rule_type == RuleType::Combined);
    if !dated {
        let v = plan_segments(entry, rule, 0, 0);
        let ghost ts = timestamp_of(*entry, rule.options.date_field) as int;
        let ghost ym = civil_year_month(ts / day_millis());
        assert(near_month(ts, ym.0, ym.1)) by {
            assert(civil_year_month((ts + 0) / day_millis()) == ym);
        }
        assert(1 <= ym.1 <= 12) by {
            lemma_civil_month_range(ts / day_millis());
        }
        assert(v.deep_view() == segments_for(*entry, *rule, ym.0, ym.1));
        return Some(v);
    }
    let ts = match rule.options.date_field {
        DateField::Created => entry.created_at,
        DateField::Modified => entry.modified_at,
    };
    match local_year_month(ts) {
        Some(ym) => Some(plan_segments(entry, rule, ym.0, ym.1)),
        None => None,
    }
}

/// Milliseconds since the epoch as stored in a snapshot: zero for an unknown time, else
/// the low 64 bits of the elapsed count.
pub open spec fn epoch_millis(input: Option<u128>) -> u64 {
    match input {
        Some(ms) => (ms % 0x1_0000_0000_0000_0000) as u64,
        None => 0,
    }
}

/// Milliseconds since the Unix epoch of a time given as its elapsed milliseconds since the
/// epoch: zero when the time is unknown or lies before the epoch (`None`); a count too large
/// for `u64` keeps its low 64 bits.
pub fn system_time_to_epoch_millis(input: Option<u128>) -> (r: u64)
    ensures
        r == epoch_millis(input),
{
    match input {
        Some(ms) => (ms % 0x1_0000_0000_0000_0000) as u64,
        None => 0,
    }
}

pub uninterp spec fn mime_for_extension(ext: Seq<char>) -> Seq<char>;

/// Relies on mime_guess: `from_ext(ext).first_or_octet_stream()`, the first mime type
/// registered for the extension, or `application/octet-stream` where none is (as for
/// an empty extension).
#[verifier::external_body]
fn guess_mime(ext: &str) -> (r: String)
    ensures
        r@ == mime_for_extension(ext@),
        ext@.len() == 0 ==> r@ == "application/octet-stream"@,
{
    mime_guess::from_ext(ext).first_or_octet_stream().to_string()
}

/// The extension of the path `p`, empty where it has none.
pub open spec fn path_extension(p: Seq<char>) -> Seq<char> {
    let name = file_name_part(p);
    if !is_file_name(name) {
        Seq::empty()
    } else {
        match extension_of(name) {
            Some(e) => e,
            None => Seq::empty(),
        }
    }
}

/// The extension of a path (the part of its file name after the last dot that does
/// not lead the name), empty where it has none.
pub fn extension_of_path(path: &str) -> (r: String)
    ensures
        r@ == path_extension(path@),
{
    let (_dir, name) = split_path(path);
    if name.unicode_len() == 0 || str_eq(name.as_str(), "..") {
        return String::new();
    }
    match split_name(name.as_str()).1 {
        Some(e) => e,
        None => String::new(),
    }
}

/// What the library reports about a single path: its extension, mime type and
/// category.
#[derive(Clone, Debug)]
pub struct FileContext {
    pub path: String,
    pub extension: String,
    pub mime_type: String,
    pub file_category: String,
}

/// The context of `path` given its mime type.
pub fn file_context_with_mime(path: &str, mime_type: String) -> (r: FileContext)
    ensures
        r.path@ == path@,
        r.extension@ == path_extension(path@),
        r.mime_type@ == mime_type@,
        r.file_category@ == category_name(
            classify(ascii_lower(path_extension(path@)), mime_type@),
        ),
{
    let extension = extension_of_path(path);
    let file_category = detect_category(extension.as_str(), mime_type.as_str()).name();
    FileContext { path: String::from_str(path), extension, mime_type, file_category }
}

/// The context of `path`: its extension, the mime type guessed from that extension,
/// and its category.
pub fn get_file_context(path: &str) -> (r: FileContext)
    ensures
        r.path@ == path@,
        r.extension@ == path_extension(path@),
        r.mime_type@ == mime_for_extension(path_extension(path@)),
        r.file_category@ == category_name(
            classify(ascii_lower(path_extension(path@)), r.mime_type@),
        ),
{
    let extension = extension_of_path(path);
    let mime = guess_mime(extension.as_str());
    file_context_with_mime(path, mime)
}

/// The snapshot of the file at `path` with the given metadata, where the metadata's
/// times are given as milliseconds elapsed since the epoch (`None` when unknown).
/// There is none where the path has no file name.
pub fn entry_from_path(
    path: &str,
    size: u64,
    created: Option<u128>,
    modified: Option<u128>,
) -> (r: Option<FileEntry>)
    ensures
        r is Some <==> is_file_name(file_name_part(path@)),
        r matches Some(e) ==> {
            &&& e.path@ == path@
            &&& e.name@ == file_name_part(path@)
            &&& e.extension@ == path_extension(path@)
            &&& e.size == size
            &&& e.created_at == epoch_millis(created)
            &&& e.modified_at == epoch_millis(modified)
            &&& e.mime_type@ == mime_for_extension(path_extension(path@))
        },
{
    let (_dir, name) = split_path(path);
    if name.unicode_len() == 0 || str_eq(name.as_str(), "..") {
        return None;
    }
    let extension = extension_of_path(path);
    let mime_type = guess_mime(extension.as_str());
    Some(
        FileEntry {
            path: String::from_str(path),
            name,
            extension,
            size,
            created_at: system_time_to_epoch_millis(created),
            modified_at: system_time_to_epoch_millis(modified),
            mime_type,
        },
    )
}

} // verus!
