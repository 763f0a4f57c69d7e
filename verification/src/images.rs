//! The records the engine works on: a file as one scan sees it
//! ([`ImageBasic`]), and the same file enriched with its capture date
//! ([`ImageAdv`]).  Paths are kept relative to their scan root and serve as
//! the catalog identity; the display name (last path component) is derived.

use vstd::prelude::*;
use vstd::string::StrSliceExecFns;
use vstd::string::StringExecFns;

verus! {

/// A file found by one scan: its root-relative path (the catalog identity)
/// and its size in bytes.
#[derive(Debug)]
pub struct ImageBasic {
    pub path: String,
    pub size: u64,
}

/// The display name of a path: everything after the last `/`, or the whole
/// path when it holds none.  Empty when the path ends with `/`.
pub open spec fn display_name_of(p: Seq<char>) -> Seq<char>
    decreases p.len(),
{
    if p.len() == 0 {
        p
    } else if p.last() == '/' {
        Seq::empty()
    } else {
        display_name_of(p.drop_last()).push(p.last())
    }
}

/// Past the last `/` the display name is exactly the remaining suffix.
proof fn lemma_display_name_suffix(p: Seq<char>, i: int)
    requires
        0 <= i <= p.len(),
        forall|j: int| i <= j < p.len() ==> p[j] != '/',
        i == 0 || p[i - 1] == '/',
    ensures
        display_name_of(p) == p.subrange(i, p.len() as int),
    decreases p.len(),
{
    if p.len() == 0 {
        assert(display_name_of(p) =~= p.subrange(i, p.len() as int));
    } else if i == p.len() {
        assert(p.last() == '/');
        assert(display_name_of(p) =~= p.subrange(i, p.len() as int));
    } else {
        assert(p.last() == p[p.len() - 1] && p.len() - 1 >= i);
        lemma_display_name_suffix(p.drop_last(), i);
        assert(p.subrange(i, p.len() as int) =~= p.drop_last().subrange(
            i,
            p.len() - 1,
        ).push(p.last()));
    }
}

impl ImageBasic {
    /// The display name of this file.
    pub fn get_name(&self) -> (r: &str)
        ensures
            r@ == display_name_of(self.path@),
    {
        let s = self.path.as_str();
        let len = s.unicode_len();
        let mut i: usize = len;
        while i > 0 && s.get_char(i - 1) != '/'
            invariant
                0 <= i <= len,
                len == s@.len(),
                s@ == self.path@,
                forall|j: int| i <= j < len ==> s@[j] != '/',
            decreases i,
        {
            i = i - 1;
        }
        let r = s.substring_char(i, len);
        proof {
            lemma_display_name_suffix(s@, i as int);
        }
        r
    }
}

impl Clone for ImageBasic {
    /// Cloning keeps the path and the size.
    fn clone(&self) -> (r: Self)
        ensures
            r == *self,
    {
        ImageBasic { path: self.path.clone(), size: self.size }
    }
}

impl PartialEq for ImageBasic {
    fn eq(&self, other: &Self) -> (r: bool) {
        self.path == other.path && self.size == other.size
    }
}

impl vstd::std_specs::cmp::PartialEqSpecImpl for ImageBasic {
    open spec fn obeys_eq_spec() -> bool {
        true
    }

    open spec fn eq_spec(&self, other: &Self) -> bool {
        self.path@ == other.path@ && self.size == other.size
    }
}

/// A calendar date: the temporal key derived from capture metadata, used for
/// cross-catalog matching and for date-bucketed storage.
#[derive(Copy, Clone, Debug, PartialEq, Eq, Structural, Hash)]
pub struct Date {
    pub year: u16,
    pub month: u8,
    pub day: u8,
}

/// The decimal digit characters.
pub open spec fn dchar(d: int) -> char {
    if d == 0 {
        '0'
    } else if d == 1 {
        '1'
    } else if d == 2 {
        '2'
    } else if d == 3 {
        '3'
    } else if d == 4 {
        '4'
    } else if d == 5 {
        '5'
    } else if d == 6 {
        '6'
    } else if d == 7 {
        '7'
    } else if d == 8 {
        '8'
    } else {
        '9'
    }
}

/// A single decimal digit as a string.
fn digit_str(d: u8) -> (r: &'static str)
    requires
        d < 10,
    ensures
        r@ =~= seq![dchar(d as int)],
{
    proof {
        reveal_strlit("0");
        reveal_strlit("1");
        reveal_strlit("2");
        reveal_strlit("3");
        reveal_strlit("4");
        reveal_strlit("5");
        reveal_strlit("6");
        reveal_strlit("7");
        reveal_strlit("8");
        reveal_strlit("9");
    }
    match d {
        0 => "0",
        1 => "1",
        2 => "2",
        3 => "3",
        4 => "4",
        5 => "5",
        6 => "6",
        7 => "7",
        8 => "8",
        _ => "9",
    }
}

impl Date {
    /// A date the engine accepts: a year that four digits can hold and
    /// calendar-shaped month and day fields.
    pub open spec fn valid(self) -> bool {
        self.year <= 9999 && 1 <= self.month <= 12 && 1 <= self.day <= 31
    }

    /// Builds a date, accepting exactly the values [`Date::valid`] allows.
    pub fn new(year: u16, month: u8, day: u8) -> (r: Option<Date>)
        ensures
            r is Some <==> (Date { year, month, day }).valid(),
            r is Some ==> r->Some_0 == (Date { year, month, day }),
    {
        if year <= 9999 && 1 <= month && month <= 12 && 1 <= day && day <= 31 {
            Some(Date { year, month, day })
        } else {
            None
        }
    }

    /// The characters of the bucket directory for this date:
    /// `YYYY-MM-DD`, zero padded.
    pub open spec fn bucket_chars(self) -> Seq<char> {
        seq![
            dchar(self.year as int / 1000 % 10),
            dchar(self.year as int / 100 % 10),
            dchar(self.year as int / 10 % 10),
            dchar(self.year as int % 10),
            '-',
            dchar(self.month as int / 10),
            dchar(self.month as int % 10),
            '-',
            dchar(self.day as int / 10),
            dchar(self.day as int % 10),
        ]
    }

    /// The name of the directory a file with this capture date is archived
    /// into: the date as `YYYY-MM-DD`.
    pub fn bucket_name(self) -> (r: String)
        requires
            self.valid(),
        ensures
            r@ == self.bucket_chars(),
    {
        proof {
            reveal_strlit("-");
        }
        let mut s = String::new();
        s.append(digit_str((self.year / 1000 % 10) as u8));
        s.append(digit_str((self.year / 100 % 10) as u8));
        s.append(digit_str((self.year / 10 % 10) as u8));
        s.append(digit_str((self.year % 10) as u8));
        s.append("-");
        s.append(digit_str(self.month / 10));
        s.append(digit_str(self.month % 10));
        s.append("-");
        s.append(digit_str(self.day / 10));
        s.append(digit_str(self.day % 10));
        proof {
            assert(s@ =~= self.bucket_chars());
        }
        s
    }
}

/// A file together with its capture date, as the durable catalogs record it.
#[derive(Debug)]
pub struct ImageAdv {
    pub basic: ImageBasic,
    pub date: Date,
}

impl Clone for ImageAdv {
    /// Cloning keeps every field.
    fn clone(&self) -> (r: Self)
        ensures
            r == *self,
    {
        ImageAdv { basic: self.basic.clone(), date: self.date }
    }
}

impl PartialEq for ImageAdv {
    fn eq(&self, other: &Self) -> (r: bool) {
        self.basic == other.basic && self.date == other.date
    }
}

impl vstd::std_specs::cmp::PartialEqSpecImpl for ImageAdv {
    open spec fn obeys_eq_spec() -> bool {
        true
    }

    open spec fn eq_spec(&self, other: &Self) -> bool {
        self.basic.path@ == other.basic.path@ && self.basic.size == other.basic.size
            && self.date == other.date
    }
}

} // verus!
