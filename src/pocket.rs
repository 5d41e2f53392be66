//! Reading Pocket CSV exports, the seed list of the reading list.

use vstd::prelude::*;
use vstd::string::*;
use crate::links::{parse_url, url_parse_of};

verus! {

/// A tag of a saved item.
#[derive(Debug, Clone)]
pub struct Tag(pub String);

/// The tags of a saved item, in the order of the export.
#[derive(Debug, Clone)]
pub struct PocketTags(Vec<Tag>);

/// Whether a saved item was read.
#[derive(Debug, Clone, Copy, PartialEq, Eq, Structural)]
pub enum PocketStatus {
    Unread,
    Archive,
}

pub open spec fn tag_views(s: Seq<Tag>) -> Seq<Seq<char>> {
    s.map_values(|t: Tag| t.0@)
}

impl View for PocketTags {
    type V = Seq<Seq<char>>;

    closed spec fn view(&self) -> Seq<Seq<char>> {
        tag_views(self.0@)
    }
}

/// The pieces of `s` between occurrences of `sep`, as `str::split` gives them.
pub open spec fn split_on(s: Seq<char>, sep: char) -> Seq<Seq<char>>
    decreases s.len(),
{
    if s.len() == 0 {
        seq![Seq::empty()]
    } else {
        let parts = split_on(s.drop_last(), sep);
        if s.last() == sep {
            parts.push(Seq::empty())
        } else {
            parts.update(parts.len() - 1, parts.last().push(s.last()))
        }
    }
}

/// The tags an export field holds: none for an empty field, else the pieces
/// between `|` separators.
pub open spec fn tags_of(field: Seq<char>) -> Seq<Seq<char>> {
    if field.len() == 0 {
        Seq::empty()
    } else {
        split_on(field, '|')
    }
}

/// The parts joined with `sep` between each two.
pub open spec fn join(parts: Seq<Seq<char>>, sep: char) -> Seq<char>
    decreases parts.len(),
{
    if parts.len() == 0 {
        Seq::empty()
    } else if parts.len() == 1 {
        parts[0]
    } else {
        join(parts.drop_last(), sep).push(sep) + parts.last()
    }
}

proof fn lemma_split_nonempty(s: Seq<char>, sep: char)
    ensures
        split_on(s, sep).len() >= 1,
    decreases s.len(),
{
    if s.len() > 0 {
        lemma_split_nonempty(s.drop_last(), sep);
    }
}

impl PocketTags {
    /// Parses the tags field of an export row.
    pub fn parse(field: &str) -> (r: PocketTags)
        ensures
            r@ == tags_of(field@),
    {
        let n = field.unicode_len();
        let mut tags: Vec<Tag> = Vec::new();
        if n == 0 {
            assert(tag_views(tags@) =~= Seq::<Seq<char>>::empty());
            return PocketTags(tags);
        }
        let mut start: usize = 0;
        let mut i: usize = 0;
        assert(field@.subrange(0, 0) =~= Seq::<char>::empty());
        assert(tag_views(tags@) =~= Seq::<Seq<char>>::empty());
        assert(split_on(Seq::<char>::empty(), '|') == seq![Seq::<char>::empty()]);
        assert(tag_views(tags@).push(field@.subrange(0, 0)) =~= split_on(field@.subrange(0, 0), '|'));
        while i < n
            invariant
                n == field@.len(),
                start <= i <= n,
                tag_views(tags@).push(field@.subrange(start as int, i as int))
                    == split_on(field@.subrange(0, i as int), '|'),
            decreases n - i,
        {
            let c = field.get_char(i);
            let ghost pre = field@.subrange(0, i as int);
            let ghost next = field@.subrange(0, i + 1);
            assert(next.drop_last() =~= pre);
            proof {
                lemma_split_nonempty(pre, '|');
            }
            assert(next.last() == c);
            if c == '|' {
                let piece = String::from_str(field.substring_char(start, i));
                let ghost before = tags@;
                tags.push(Tag(piece));
                assert(tag_views(tags@) =~= tag_views(before).push(field@.subrange(start as int, i as int)));
                start = i + 1;
                assert(field@.subrange(start as int, i + 1) =~= Seq::<char>::empty());
                assert(tag_views(tags@).push(field@.subrange(start as int, i + 1)) =~= split_on(next, '|'));
            } else {
                assert(field@.subrange(start as int, i + 1) =~= field@.subrange(start as int, i as int).push(c));
                assert(tag_views(tags@).push(field@.subrange(start as int, i + 1)) =~= split_on(next, '|'));
            }
            i = i + 1;
        }
        let last = String::from_str(field.substring_char(start, n));
        let ghost before = tags@;
        tags.push(Tag(last));
        assert(tag_views(tags@) =~= tag_views(before).push(field@.subrange(start as int, n as int)));
        assert(field@.subrange(0, n as int) =~= field@);
        PocketTags(tags)
    }

    /// The tags joined by commas, as the store keeps them.
    pub fn to_string(&self) -> (r: String)
        ensures
            r@ == join(self@, ','),
    {
        let mut out = String::new();
        let mut i: usize = 0;
        proof {
            reveal_strlit(",");
        }
        while i < self.0.len()
            invariant
                i <= self.0@.len(),
                out@ == join(tag_views(self.0@).subrange(0, i as int), ','),
                ","@ == seq![','],
            decreases self.0@.len() - i,
        {
            let ghost pre = tag_views(self.0@).subrange(0, i as int);
            let ghost next = tag_views(self.0@).subrange(0, i + 1);
            assert(next.drop_last() =~= pre);
            if i > 0 {
                out.append(",");
            }
            out.append(self.0[i].0.as_str());
            assert(out@ =~= join(next, ','));
            i = i + 1;
        }
        assert(tag_views(self.0@).subrange(0, self.0@.len() as int) =~= self@);
        out
    }

    /// The tags, in order.
    pub fn into_iter(self) -> (r: std::vec::IntoIter<Tag>) {
        self.0.into_iter()
    }
}

/// Whether two strings hold the same characters.
fn same_text(a: &str, b: &str) -> (r: bool)
    ensures
        r == (a@ == b@),
{
    let n = a.unicode_len();
    if n != b.unicode_len() {
        return false;
    }
    let mut i: usize = 0;
    while i < n
        invariant
            n == a@.len(),
            n == b@.len(),
            i <= n,
            a@.subrange(0, i as int) == b@.subrange(0, i as int),
        decreases n - i,
    {
        if a.get_char(i) != b.get_char(i) {
            assert(a@[i as int] != b@[i as int]);
            return false;
        }
        assert(a@.subrange(0, i + 1) =~= a@.subrange(0, i as int).push(a@[i as int]));
        assert(b@.subrange(0, i + 1) =~= b@.subrange(0, i as int).push(b@[i as int]));
        i = i + 1;
    }
    assert(a@ =~= a@.subrange(0, n as int));
    assert(b@ =~= b@.subrange(0, n as int));
    true
}

/// The status an export field names.
pub open spec fn status_of(field: Seq<char>) -> Option<PocketStatus> {
    if field == "unread"@ {
        Some(PocketStatus::Unread)
    } else if field == "archive"@ {
        Some(PocketStatus::Archive)
    } else {
        None
    }
}

impl PocketStatus {
    /// Parses the status field of an export row.
    pub fn parse(field: &str) -> (r: Option<PocketStatus>)
        ensures
            r == status_of(field@),
    {
        proof {
            reveal_strlit("unread");
            reveal_strlit("archive");
        }
        if same_text(field, "unread") {
            Some(PocketStatus::Unread)
        } else if same_text(field, "archive") {
            Some(PocketStatus::Archive)
        } else {
            None
        }
    }

    /// The name the export and the store give the status.
    pub fn to_string(&self) -> (r: String)
        ensures
            *self == PocketStatus::Unread ==> r@ == "unread"@,
            *self == PocketStatus::Archive ==> r@ == "archive"@,
    {
        match self {
            PocketStatus::Unread => String::from_str("unread"),
            PocketStatus::Archive => String::from_str("archive"),
        }
    }
}

/// The value of a digit in base `radix` (ten or sixteen), if `c` is one.
pub open spec fn digit_of(c: char, radix: nat) -> Option<nat> {
    let v = c as u32;
    if 48 <= v <= 57 {
        Some((v - 48) as nat)
    } else if radix == 16 && 97 <= v <= 102 {
        Some((v - 87) as nat)
    } else if radix == 16 && 65 <= v <= 70 {
        Some((v - 55) as nat)
    } else {
        None
    }
}

/// The number the digits of `s` write in base `radix`, if all are digits.
pub open spec fn digits_value(s: Seq<char>, radix: nat) -> Option<nat>
    decreases s.len(),
{
    if s.len() == 0 {
        Some(0)
    } else {
        match (digits_value(s.drop_last(), radix), digit_of(s.last(), radix)) {
            (Some(v), Some(d)) => Some(v * radix + d),
            _ => None,
        }
    }
}

/// An unsigned integer in base `radix`: an optional `+`, then at least one digit.
pub open spec fn unsigned_of(s: Seq<char>, radix: nat) -> Option<nat> {
    let body = if s.len() > 0 && s[0] == '+' { s.drop_first() } else { s };
    if body.len() == 0 {
        None
    } else {
        digits_value(body, radix)
    }
}

/// The integer a CSV field holds: after `0x` in hexadecimal, else in decimal.
pub open spec fn integer_of(field: Seq<char>) -> Option<nat> {
    if field.len() >= 2 && field[0] == '0' && field[1] == 'x' {
        unsigned_of(field.subrange(2, field.len() as int), 16)
    } else {
        unsigned_of(field, 10)
    }
}

/// The integer a CSV field holds, where it fits in `usize`.
pub open spec fn usize_of(field: Seq<char>) -> Option<usize> {
    match integer_of(field) {
        Some(v) => if v <= usize::MAX { Some(v as usize) } else { None },
        None => None,
    }
}

proof fn lemma_digits_prefix(s: Seq<char>, k: int, radix: nat)
    requires
        0 <= k <= s.len(),
        1 <= radix,
    ensures
        digits_value(s.subrange(0, k), radix) is None ==> digits_value(s, radix) is None,
        digits_value(s.subrange(0, k), radix) matches Some(p) ==> (digits_value(s, radix) matches Some(v) ==> p <= v),
    decreases s.len(),
{
    if k == s.len() {
        assert(s.subrange(0, k) =~= s);
    } else {
        let d = s.drop_last();
        assert(d.subrange(0, k) =~= s.subrange(0, k));
        lemma_digits_prefix(d, k, radix);
        if let Some(v) = digits_value(d, radix) {
            assert(v * radix >= v) by (nonlinear_arith)
                requires radix >= 1;
        }
    }
}

fn digit_value(c: char, radix: u32) -> (r: Option<u32>)
    requires
        radix == 10 || radix == 16,
    ensures
        match r {
            Some(d) => digit_of(c, radix as nat) == Some(d as nat) && d < radix,
            None => digit_of(c, radix as nat) is None,
        },
{
    let v = c as u32;
    if 48 <= v && v <= 57 {
        Some(v - 48)
    } else if radix == 16 && 97 <= v && v <= 102 {
        Some(v - 87)
    } else if radix == 16 && 65 <= v && v <= 70 {
        Some(v - 55)
    } else {
        None
    }
}

/// Reads the unsigned integer in base `radix` that `s` holds from `start` on.
fn parse_unsigned(s: &str, start: usize, radix: u32) -> (r: Option<usize>)
    requires
        start <= s@.len(),
        radix == 10 || radix == 16,
    ensures
        r == (match unsigned_of(s@.subrange(start as int, s@.len() as int), radix as nat) {
            Some(v) => if v <= usize::MAX { Some(v as usize) } else { None },
            None => None,
        }),
{
    let n = s.unicode_len();
    let ghost text = s@.subrange(start as int, n as int);
    let mut b = start;
    if start < n && s.get_char(start) == '+' {
        b = start + 1;
    }
    let ghost body = s@.subrange(b as int, n as int);
    assert(body =~= (if text.len() > 0 && text[0] == '+' { text.drop_first() } else { text }));
    if b == n {
        return None;
    }
    let mut value: usize = 0;
    let mut i: usize = b;
    assert(s@.subrange(b as int, b as int) =~= Seq::<char>::empty());
    while i < n
        invariant
            n == s@.len(),
            b < n,
            b <= i <= n,
            radix == 10 || radix == 16,
            body == s@.subrange(b as int, n as int),
            unsigned_of(s@.subrange(start as int, n as int), radix as nat) == digits_value(body, radix as nat),
            digits_value(s@.subrange(b as int, i as int), radix as nat) == Some(value as nat),
        decreases n - i,
    {
        let ghost pre = s@.subrange(b as int, i as int);
        let ghost next = s@.subrange(b as int, i + 1);
        assert(next.drop_last() =~= pre);
        assert(body.subrange(0, i + 1 - b) =~= next);
        proof {
            lemma_digits_prefix(body, i + 1 - b, radix as nat);
        }
        let c = s.get_char(i);
        assert(next.last() == c);
        let d = match digit_value(c, radix) {
            Some(d) => d,
            None => {
                return None;
            },
        };
        let scaled = match value.checked_mul(radix as usize) {
            Some(x) => x,
            None => {
                assert(value * radix + d > usize::MAX) by (nonlinear_arith)
                    requires value * radix > usize::MAX, d >= 0;
                assert(digits_value(next, radix as nat) == Some((value * radix + d) as nat));
                return None;
            },
        };
        value = match scaled.checked_add(d as usize) {
            Some(x) => x,
            None => {
                assert(digits_value(next, radix as nat) == Some((scaled + d) as nat));
                return None;
            },
        };
        i = i + 1;
    }
    assert(s@.subrange(b as int, n as int) =~= body);
    Some(value)
}

/// Reads the integer a CSV field holds, where it fits in `usize`.
pub fn parse_usize(field: &str) -> (r: Option<usize>)
    ensures
        r == usize_of(field@),
{
    let n = field.unicode_len();
    if n >= 2 && field.get_char(0) == '0' && field.get_char(1) == 'x' {
        parse_unsigned(field, 2, 16)
    } else {
        assert(field@.subrange(0, n as int) =~= field@);
        parse_unsigned(field, 0, 10)
    }
}

/// A column of a Pocket export.
#[derive(Debug, Clone, Copy, PartialEq, Eq, Structural)]
pub enum PocketField {
    Title,
    Url,
    TimeAdded,
    Tags,
    Status,
}

/// Why an export could not be read. Rows are counted from zero, after the header.
#[derive(Debug, Clone, Copy, PartialEq, Eq, Structural)]
pub enum PocketError {
    /// The bytes are not CSV, or a row has another number of fields than the header.
    Csv,
    /// The header has no column of this name, or more than one.
    BadHeader(PocketField),
    /// The row's URL is not an absolute URL.
    BadUrl(usize),
    /// The row's time is not an integer that fits in `usize`.
    BadTimeAdded(usize),
    /// The row's status is neither `unread` nor `archive`.
    BadStatus(usize),
}

/// One saved item of an export.
#[derive(Debug, Clone)]
pub struct PocketItem {
    pub title: String,
    /// The normalized absolute URL.
    pub url: String,
    /// When the item was saved, in seconds since the Unix epoch.
    pub time_added: usize,
    pub tags: PocketTags,
    pub status: PocketStatus,
}

/// The plain values of a saved item.
pub struct ItemView {
    pub title: Seq<char>,
    pub url: Seq<char>,
    pub time_added: usize,
    pub tags: Seq<Seq<char>>,
    pub status: PocketStatus,
}

pub open spec fn item_view(i: PocketItem) -> ItemView {
    ItemView { title: i.title@, url: i.url@, time_added: i.time_added, tags: i.tags@, status: i.status }
}

pub open spec fn item_views(s: Seq<PocketItem>) -> Seq<ItemView> {
    s.map_values(|i: PocketItem| item_view(i))
}

/// The header and the rows that CSV reading makes of `data`, or `None` where
/// `data` is not CSV.
pub uninterp spec fn csv_table_of(data: Seq<u8>) -> Option<(Seq<Seq<char>>, Seq<Seq<Seq<char>>>)>;

pub open spec fn strings_view(v: Seq<String>) -> Seq<Seq<char>> {
    v.map_values(|x: String| x@)
}

pub open spec fn rows_view(v: Seq<Vec<String>>) -> Seq<Seq<Seq<char>>> {
    v.map_values(|r: Vec<String>| strings_view(r@))
}

/// Relies on `csv::Reader::from_reader` with its default settings, its
/// `headers` and its `records`: the first record is the header, and a record
/// with another number of fields than the header is an error.
#[verifier::external_body]
fn read_csv(data: &[u8]) -> (r: Option<(Vec<String>, Vec<Vec<String>>)>)
    ensures
        match r {
            Some((h, rows)) => {
                &&& csv_table_of(data@) == Some((strings_view(h@), rows_view(rows@)))
                &&& forall|i: int| 0 <= i < rows@.len() ==> (#[trigger] rows@[i])@.len() == h@.len()
            },
            None => csv_table_of(data@) is None,
        },
{
    let mut reader = csv::Reader::from_reader(data);
    let header: Vec<String> = reader.headers().ok()?.iter().map(String::from).collect();
    let mut rows: Vec<Vec<String>> = Vec::new();
    for record in reader.records() {
        rows.push(record.ok()?.iter().map(String::from).collect());
    }
    Some((header, rows))
}

/// The name of a column in the export's header.
pub open spec fn field_name(f: PocketField) -> Seq<char> {
    match f {
        PocketField::Title => "title"@,
        PocketField::Url => "url"@,
        PocketField::TimeAdded => "time_added"@,
        PocketField::Tags => "tags"@,
        PocketField::Status => "status"@,
    }
}

/// Whether `i` is the one position of the header that holds `name`.
pub open spec fn only_column(h: Seq<Seq<char>>, name: Seq<char>, i: int) -> bool {
    &&& 0 <= i < h.len()
    &&& h[i] == name
    &&& forall|j: int| 0 <= j < h.len() && h[j] == name ==> j == i
}

/// The position of the column named `name`, when exactly one column has that name.
pub open spec fn column_of(h: Seq<Seq<char>>, name: Seq<char>) -> Option<int> {
    if exists|i: int| only_column(h, name, i) {
        Some(choose|i: int| only_column(h, name, i))
    } else {
        None
    }
}

/// Where each field of an item stands in a row.
#[derive(Debug, Clone, Copy)]
pub struct Columns {
    pub title: usize,
    pub url: usize,
    pub time_added: usize,
    pub tags: usize,
    pub status: usize,
}

pub open spec fn column_fits(h: Seq<Seq<char>>, f: PocketField, c: usize) -> bool {
    column_of(h, field_name(f)) == Some(c as int)
}

/// The columns of a header, or the first field, in the order of `PocketField`,
/// without exactly one column.
pub open spec fn columns_fit(h: Seq<Seq<char>>, c: Columns) -> bool {
    &&& column_fits(h, PocketField::Title, c.title)
    &&& column_fits(h, PocketField::Url, c.url)
    &&& column_fits(h, PocketField::TimeAdded, c.time_added)
    &&& column_fits(h, PocketField::Tags, c.tags)
    &&& column_fits(h, PocketField::Status, c.status)
}

pub open spec fn first_missing(h: Seq<Seq<char>>) -> Option<PocketField> {
    if column_of(h, field_name(PocketField::Title)) is None {
        Some(PocketField::Title)
    } else if column_of(h, field_name(PocketField::Url)) is None {
        Some(PocketField::Url)
    } else if column_of(h, field_name(PocketField::TimeAdded)) is None {
        Some(PocketField::TimeAdded)
    } else if column_of(h, field_name(PocketField::Tags)) is None {
        Some(PocketField::Tags)
    } else if column_of(h, field_name(PocketField::Status)) is None {
        Some(PocketField::Status)
    } else {
        None
    }
}

/// The item a row stands for, given where its fields are; `n` is the row's number.
pub open spec fn record_of(row: Seq<Seq<char>>, c: Columns, n: usize) -> Result<ItemView, PocketError> {
    match url_parse_of(row[c.url as int]) {
        None => Err(PocketError::BadUrl(n)),
        Some(url) => match usize_of(row[c.time_added as int]) {
            None => Err(PocketError::BadTimeAdded(n)),
            Some(t) => match status_of(row[c.status as int]) {
                None => Err(PocketError::BadStatus(n)),
                Some(st) => Ok(ItemView {
                    title: row[c.title as int],
                    url,
                    time_added: t,
                    tags: tags_of(row[c.tags as int]),
                    status: st,
                }),
            },
        },
    }
}

/// The items the rows stand for, or the error of the first row that stands for none.
pub open spec fn records_of(rows: Seq<Seq<Seq<char>>>, c: Columns) -> Result<Seq<ItemView>, PocketError>
    decreases rows.len(),
{
    if rows.len() == 0 {
        Ok(Seq::empty())
    } else {
        match records_of(rows.drop_last(), c) {
            Err(e) => Err(e),
            Ok(items) => match record_of(rows.last(), c, (rows.len() - 1) as usize) {
                Err(e) => Err(e),
                Ok(item) => Ok(items.push(item)),
            },
        }
    }
}

/// The items of an export. An export without rows has none, whatever its
/// header; otherwise each of the five fields needs exactly one column.
pub open spec fn pocket_items_of(data: Seq<u8>) -> Result<Seq<ItemView>, PocketError> {
    match csv_table_of(data) {
        None => Err(PocketError::Csv),
        Some((h, rows)) => if rows.len() == 0 {
            Ok(Seq::empty())
        } else {
            match first_missing(h) {
                Some(f) => Err(PocketError::BadHeader(f)),
                None => records_of(rows, Columns {
                    title: column_of(h, field_name(PocketField::Title))->0 as usize,
                    url: column_of(h, field_name(PocketField::Url))->0 as usize,
                    time_added: column_of(h, field_name(PocketField::TimeAdded))->0 as usize,
                    tags: column_of(h, field_name(PocketField::Tags))->0 as usize,
                    status: column_of(h, field_name(PocketField::Status))->0 as usize,
                }),
            }
        },
    }
}

pub open spec fn items_result_view(r: Result<Vec<PocketItem>, PocketError>) -> Result<Seq<ItemView>, PocketError> {
    match r {
        Ok(v) => Ok(item_views(v@)),
        Err(e) => Err(e),
    }
}

/// The one position of the header that holds `name`, if there is exactly one.
fn find_column(h: &Vec<String>, name: &str) -> (r: Option<usize>)
    ensures
        match r {
            Some(i) => column_of(strings_view(h@), name@) == Some(i as int),
            None => column_of(strings_view(h@), name@) is None,
        },
{
    let ghost hv = strings_view(h@);
    let mut found: Option<usize> = None;
    let mut i: usize = 0;
    while i < h.len()
        invariant
            i <= h@.len(),
            hv == strings_view(h@),
            match found {
                Some(k) => only_column(hv.subrange(0, i as int), name@, k as int),
                None => forall|j: int| 0 <= j < i ==> hv[j] != name@,
            },
            forall|k: int| 0 <= k < i ==> hv.subrange(0, i as int)[k] == #[trigger] hv[k],
        decreases h@.len() - i,
    {
        if same_text(h[i].as_str(), name) {
            match found {
                Some(k) => {
                    assert(hv[i as int] == name@);
                    assert(hv[k as int] == name@);
                    assert forall|x: int| !only_column(hv, name@, x) by {
                        if only_column(hv, name@, x) {
                            assert(x == k && x == i);
                        }
                    }
                    return None;
                },
                None => {
                    found = Some(i);
                },
            }
        }
        i = i + 1;
        assert forall|k: int| 0 <= k < i implies hv.subrange(0, i as int)[k] == #[trigger] hv[k] by {}
    }
    assert(hv.subrange(0, h@.len() as int) =~= hv);
    match found {
        Some(k) => {
            assert(only_column(hv, name@, k as int));
        },
        None => {
            assert forall|x: int| !only_column(hv, name@, x) by {}
        },
    }
    found
}

/// Where each field stands in the header, or the first field without exactly one column.
fn find_columns(h: &Vec<String>) -> (r: Result<Columns, PocketField>)
    ensures
        match r {
            Ok(c) => first_missing(strings_view(h@)) is None && columns_fit(strings_view(h@), c),
            Err(f) => first_missing(strings_view(h@)) == Some(f),
        },
{
    proof {
        reveal_strlit("title");
        reveal_strlit("url");
        reveal_strlit("time_added");
        reveal_strlit("tags");
        reveal_strlit("status");
    }
    let title = match find_column(h, "title") { Some(c) => c, None => return Err(PocketField::Title) };
    let url = match find_column(h, "url") { Some(c) => c, None => return Err(PocketField::Url) };
    let time_added = match find_column(h, "time_added") { Some(c) => c, None => return Err(PocketField::TimeAdded) };
    let tags = match find_column(h, "tags") { Some(c) => c, None => return Err(PocketField::Tags) };
    let status = match find_column(h, "status") { Some(c) => c, None => return Err(PocketField::Status) };
    Ok(Columns { title, url, time_added, tags, status })
}

/// The item a row stands for.
fn item_from_row(row: &Vec<String>, c: Columns, n: usize) -> (r: Result<PocketItem, PocketError>)
    requires
        c.title < row@.len(),
        c.url < row@.len(),
        c.time_added < row@.len(),
        c.tags < row@.len(),
        c.status < row@.len(),
    ensures
        match r {
            Ok(item) => record_of(strings_view(row@), c, n) == Ok::<ItemView, PocketError>(item_view(item)),
            Err(e) => record_of(strings_view(row@), c, n) == Err::<ItemView, PocketError>(e),
        },
{
    let url = match parse_url(row[c.url].as_str()) {
        Some(u) => u,
        None => return Err(PocketError::BadUrl(n)),
    };
    let time_added = match parse_usize(row[c.time_added].as_str()) {
        Some(t) => t,
        None => return Err(PocketError::BadTimeAdded(n)),
    };
    let status = match PocketStatus::parse(row[c.status].as_str()) {
        Some(s) => s,
        None => return Err(PocketError::BadStatus(n)),
    };
    let tags = PocketTags::parse(row[c.tags].as_str());
    let title = row[c.title].clone();
    Ok(PocketItem { title, url, time_added, tags, status })
}

/// Reads Pocket CSV exports.
pub struct PocketReader<R> {
    reader: R,
}

impl<R> PocketReader<R> {
    /// The export this reader reads.
    pub closed spec fn source(&self) -> R {
        self.reader
    }

    /// Creates a reader of the export `reader` holds.
    pub fn new(reader: R) -> (r: Self)
        ensures
            r.source() == reader,
    {
        PocketReader { reader }
    }
}

impl<'a> PocketReader<&'a [u8]> {
    /// Reads every row of the export into an item.
    pub fn read(self) -> (r: Result<Vec<PocketItem>, PocketError>)
        ensures
            items_result_view(r) == pocket_items_of(self.source()@),
    {
        let (header, rows) = match read_csv(self.reader) {
            Some(t) => t,
            None => return Err(PocketError::Csv),
        };
        let mut items: Vec<PocketItem> = Vec::new();
        if rows.len() == 0 {
            assert(item_views(items@) =~= Seq::<ItemView>::empty());
            return Ok(items);
        }
        let c = match find_columns(&header) {
            Ok(c) => c,
            Err(f) => return Err(PocketError::BadHeader(f)),
        };
        let ghost hv = strings_view(header@);
        let ghost rv = rows_view(rows@);
        assert(c == (Columns {
            title: column_of(hv, field_name(PocketField::Title))->0 as usize,
            url: column_of(hv, field_name(PocketField::Url))->0 as usize,
            time_added: column_of(hv, field_name(PocketField::TimeAdded))->0 as usize,
            tags: column_of(hv, field_name(PocketField::Tags))->0 as usize,
            status: column_of(hv, field_name(PocketField::Status))->0 as usize,
        }));
        assert(pocket_items_of(self.source()@) == records_of(rv, c));
        let mut n: usize = 0;
        assert(rv.subrange(0, 0) =~= Seq::<Seq<Seq<char>>>::empty());
        assert(item_views(items@) =~= Seq::<ItemView>::empty());
        while n < rows.len()
            invariant
                n <= rows@.len(),
                rv == rows_view(rows@),
                hv == strings_view(header@),
                columns_fit(hv, c),
                pocket_items_of(self.source()@) == records_of(rv, c),
                forall|i: int| 0 <= i < rows@.len() ==> (#[trigger] rows@[i])@.len() == header@.len(),
                records_of(rv.subrange(0, n as int), c) == Ok::<Seq<ItemView>, PocketError>(item_views(items@)),
            decreases rows@.len() - n,
        {
            let row = &rows[n];
            assert(rv[n as int] == strings_view(row@));
            assert(c.title < row@.len() && c.url < row@.len() && c.time_added < row@.len()
                && c.tags < row@.len() && c.status < row@.len());
            let ghost next = rv.subrange(0, n + 1);
            assert(next.drop_last() =~= rv.subrange(0, n as int));
            assert(next.last() == rv[n as int]);
            match item_from_row(row, c, n) {
                Ok(item) => {
                    let ghost before = items@;
                    items.push(item);
                    assert(item_views(items@) =~= item_views(before).push(item_view(items@.last())));
                },
                Err(e) => {
                    proof {
                        assert(records_of(next, c) == Err::<Seq<ItemView>, PocketError>(e));
                        lemma_records_error_stays(rv, c, n + 1);
                    }
                    return Err(e);
                },
            }
            n = n + 1;
        }
        assert(rv.subrange(0, rows@.len() as int) =~= rv);
        Ok(items)
    }
}

proof fn lemma_records_error_stays(rows: Seq<Seq<Seq<char>>>, c: Columns, k: int)
    requires
        0 <= k <= rows.len(),
        records_of(rows.subrange(0, k), c) is Err,
    ensures
        records_of(rows, c) == records_of(rows.subrange(0, k), c),
    decreases rows.len(),
{
    if k == rows.len() {
        assert(rows.subrange(0, k) =~= rows);
    } else {
        let d = rows.drop_last();
        assert(d.subrange(0, k) =~= rows.subrange(0, k));
        lemma_records_error_stays(d, c, k);
    }
}

} // verus!
