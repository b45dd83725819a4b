//! Decisions about how the panels present what was sampled: the vendor and
//! system families that pick a panel's color, the cleaned-up version texts,
//! and the spacing of the process list.
use vstd::prelude::*;
use vstd::string::*;

use crate::text::push_char;

verus! {

/// Whether `needle` occurs in `hay` at position `at`.
pub open spec fn occurs_at(hay: Seq<char>, needle: Seq<char>, at: int) -> bool {
    0 <= at && at + needle.len() <= hay.len() && hay.subrange(at, at + needle.len()) == needle
}

/// Whether `needle` occurs somewhere in `hay`.
pub open spec fn contains_text(hay: Seq<char>, needle: Seq<char>) -> bool {
    exists|at: int| occurs_at(hay, needle, at)
}

/// Whether `needle` occurs in `hay`.
pub fn text_contains(hay: &str, needle: &str) -> (r: bool)
    ensures
        r == contains_text(hay@, needle@),
{
    let n = hay.unicode_len();
    let m = needle.unicode_len();
    if m > n {
        assert forall|at: int| !occurs_at(hay@, needle@, at) by {}
        return false;
    }
    let mut at: usize = 0;
    while at <= n - m
        invariant
            n == hay@.len(),
            m == needle@.len(),
            m <= n,
            at <= n - m + 1,
            forall|b: int| 0 <= b < at ==> !occurs_at(hay@, needle@, b),
        decreases n - m + 1 - at,
    {
        let mut k: usize = 0;
        let mut same = true;
        while k < m && same
            invariant
                n == hay@.len(),
                m == needle@.len(),
                at + m <= n,
                k <= m,
                same <==> forall|j: int| 0 <= j < k ==> hay@[at + j] == needle@[j],
            decreases m - k,
        {
            if hay.get_char(at + k) != needle.get_char(k) {
                same = false;
            }
            k = k + 1;
        }
        if same {
            assert(hay@.subrange(at as int, at + m) =~= needle@);
            assert(occurs_at(hay@, needle@, at as int));
            return true;
        }
        assert(!occurs_at(hay@, needle@, at as int)) by {
            if occurs_at(hay@, needle@, at as int) {
                let j = choose|j: int| 0 <= j < k && hay@[at + j] != needle@[j];
                assert(hay@.subrange(at as int, at + m)[j] == hay@[at + j]);
            }
        }
        at = at + 1;
    }
    assert forall|b: int| !occurs_at(hay@, needle@, b) by {}
    false
}

/// What Rust's `str::to_uppercase` makes of a text: each character replaced
/// by its Unicode uppercase mapping.
pub uninterp spec fn uppercase(text: Seq<char>) -> Seq<char>;

/// The text in uppercase. Calls `str::to_uppercase`; its result is named
/// `uppercase`, a function of the text alone.
#[verifier::external_body]
fn to_uppercase(text: &str) -> (r: String)
    ensures
        r@ == uppercase(text@),
{
    text.to_uppercase()
}

/// The ASCII uppercase of a character: `a` to `z` become `A` to `Z`.
pub open spec fn ascii_upper(c: char) -> char {
    if 'a' <= c && c <= 'z' {
        ((c as u32) - 32) as char
    } else {
        c
    }
}

/// The text with ASCII letters in uppercase (what `str::to_ascii_uppercase` gives).
pub open spec fn ascii_uppercase(text: Seq<char>) -> Seq<char> {
    text.map_values(|c: char| ascii_upper(c))
}

/// The text with ASCII letters in uppercase.
pub fn to_ascii_uppercase(text: &str) -> (r: String)
    ensures
        r@ == ascii_uppercase(text@),
{
    let n = text.unicode_len();
    let mut r = String::new();
    let mut i: usize = 0;
    while i < n
        invariant
            n == text@.len(),
            i <= n,
            r@ == ascii_uppercase(text@.take(i as int)),
        decreases n - i,
    {
        let c = text.get_char(i);
        let u = if 'a' <= c && c <= 'z' {
            let code = (c as u32) - 32;
            assert(code == (c as u32) - 32);
            char_from_ascii(code)
        } else {
            c
        };
        push_char(&mut r, u);
        assert(text@.take(i + 1) =~= text@.take(i as int).push(c));
        assert(ascii_uppercase(text@.take(i + 1)) =~= ascii_uppercase(text@.take(i as int)).push(u));
        i = i + 1;
    }
    assert(text@.take(n as int) =~= text@);
    r
}

/// The character of an uppercase ASCII letter code.
fn char_from_ascii(code: u32) -> (c: char)
    requires
        65 <= code <= 90,
    ensures
        c == code as char,
{
    let b: u8 = code as u8;
    b as char
}

/// The processor vendors that the processor panel tells apart by color.
#[derive(Debug, Clone, Copy, PartialEq, Eq, Structural)]
pub enum CpuVendor {
    Amd,
    Intel,
    Unknown,
}

/// The graphics vendors that the graphics panel tells apart by color.
#[derive(Debug, Clone, Copy, PartialEq, Eq, Structural)]
pub enum GpuVendor {
    Nvidia,
    Amd,
    Intel,
    Unknown,
}

/// The operating system families that the system panel tells apart by color.
#[derive(Debug, Clone, Copy, PartialEq, Eq, Structural)]
pub enum OsFamily {
    Windows,
    Linux,
    MacOs,
    Unknown,
}

/// The vendor that an uppercase processor brand names: AMD before Intel.
pub open spec fn cpu_vendor_in(upper: Seq<char>) -> CpuVendor {
    if contains_text(upper, "AMD"@) {
        CpuVendor::Amd
    } else if contains_text(upper, "INTEL"@) {
        CpuVendor::Intel
    } else {
        CpuVendor::Unknown
    }
}

/// The vendor of a processor, from its brand in uppercase.
pub open spec fn cpu_vendor_of(brand: Seq<char>) -> CpuVendor {
    cpu_vendor_in(uppercase(brand))
}

/// The vendor that an uppercase graphics card name names: NVIDIA, then
/// AMD, then Intel.
pub open spec fn gpu_vendor_in(upper: Seq<char>) -> GpuVendor {
    if contains_text(upper, "NVIDIA"@) {
        GpuVendor::Nvidia
    } else if contains_text(upper, "AMD"@) {
        GpuVendor::Amd
    } else if contains_text(upper, "INTEL"@) {
        GpuVendor::Intel
    } else {
        GpuVendor::Unknown
    }
}

/// The vendor of a graphics card, from its name in uppercase.
pub open spec fn gpu_vendor_of(name: Seq<char>) -> GpuVendor {
    gpu_vendor_in(uppercase(name))
}

/// The family of an operating system, from its name (unknown without one).
pub open spec fn os_family_of(os: Option<Seq<char>>) -> OsFamily {
    let upper = ascii_uppercase(
        match os {
            Some(name) => name,
            None => "UNKNOWN OS"@,
        },
    );
    if contains_text(upper, "WINDOWS"@) {
        OsFamily::Windows
    } else if contains_text(upper, "LINUX"@) {
        OsFamily::Linux
    } else if contains_text(upper, "MACOS"@) {
        OsFamily::MacOs
    } else {
        OsFamily::Unknown
    }
}

/// The vendor that an uppercase processor brand names.
pub fn cpu_vendor_from_uppercase(upper: &str) -> (r: CpuVendor)
    ensures
        r == cpu_vendor_in(upper@),
{
    if text_contains(upper, "AMD") {
        CpuVendor::Amd
    } else if text_contains(upper, "INTEL") {
        CpuVendor::Intel
    } else {
        CpuVendor::Unknown
    }
}

/// The vendor of a processor, from its brand.
pub fn cpu_vendor(brand: &str) -> (r: CpuVendor)
    ensures
        r == cpu_vendor_of(brand@),
{
    let upper = to_uppercase(brand);
    cpu_vendor_from_uppercase(upper.as_str())
}

/// The vendor that an uppercase graphics card name names.
pub fn gpu_vendor_from_uppercase(upper: &str) -> (r: GpuVendor)
    ensures
        r == gpu_vendor_in(upper@),
{
    if text_contains(upper, "NVIDIA") {
        GpuVendor::Nvidia
    } else if text_contains(upper, "AMD") {
        GpuVendor::Amd
    } else if text_contains(upper, "INTEL") {
        GpuVendor::Intel
    } else {
        GpuVendor::Unknown
    }
}

/// The vendor of a graphics card, from its name.
pub fn gpu_vendor(name: &str) -> (r: GpuVendor)
    ensures
        r == gpu_vendor_of(name@),
{
    let upper = to_uppercase(name);
    gpu_vendor_from_uppercase(upper.as_str())
}

/// The family of an operating system, from its name.
pub fn os_family(os: Option<&str>) -> (r: OsFamily)
    ensures
        r == os_family_of(
            match os {
                Some(name) => Some(name@),
                None => None,
            },
        ),
{
    let name = match os {
        Some(name) => name,
        None => "UNKNOWN OS",
    };
    let upper = to_ascii_uppercase(name);
    if text_contains(upper.as_str(), "WINDOWS") {
        OsFamily::Windows
    } else if text_contains(upper.as_str(), "LINUX") {
        OsFamily::Linux
    } else if text_contains(upper.as_str(), "MACOS") {
        OsFamily::MacOs
    } else {
        OsFamily::Unknown
    }
}

/// The position of the first `(` in `s`, if there is one.
pub open spec fn first_paren(s: Seq<char>) -> Option<int> {
    if exists|i: int| 0 <= i < s.len() && s[i] == '(' {
        Some(choose|i: int| 0 <= i < s.len() && s[i] == '(' && forall|j: int| 0 <= j < i ==> s[j] != '(')
    } else {
        None
    }
}

/// The text without its round brackets.
pub open spec fn without_parens(s: Seq<char>) -> Seq<char> {
    s.filter(|c: char| c != '(' && c != ')')
}

/// The operating system version as the system panel shows it: the text
/// before the first `(`, without brackets.
pub open spec fn version_text(raw: Seq<char>) -> Seq<char> {
    without_parens(
        match first_paren(raw) {
            Some(i) => raw.take(i),
            None => raw,
        },
    )
}

/// The kernel version as the system panel shows it: the text after the
/// first `(`, without brackets.
pub open spec fn kernel_text(raw: Seq<char>) -> Seq<char> {
    without_parens(
        match first_paren(raw) {
            Some(i) => raw.skip(i + 1),
            None => raw,
        },
    )
}

/// Where the first `(` of `s` stands, if anywhere.
fn find_paren(s: &str) -> (r: Option<usize>)
    ensures
        r == (match first_paren(s@) {
            Some(i) => Some(i as usize),
            None => None::<usize>,
        }),
        r matches Some(i) ==> i < s@.len(),
        first_paren(s@) matches Some(i) ==> 0 <= i < s@.len(),
{
    let n = s.unicode_len();
    let mut i: usize = 0;
    while i < n
        invariant
            n == s@.len(),
            i <= n,
            forall|j: int| 0 <= j < i ==> s@[j] != '(',
        decreases n - i,
    {
        if s.get_char(i) == '(' {
            let ghost k = choose|k: int| 0 <= k < s@.len() && s@[k] == '(' && forall|j: int| 0 <= j < k ==> s@[j] != '(';
            assert(k == i) by {
                if k < i {
                } else if k > i {
                }
            }
            return Some(i);
        }
        i = i + 1;
    }
    None
}

/// The characters `from..to` of `s` without round brackets, appended to `out`.
fn push_without_parens(out: &mut String, s: &str, from: usize, to: usize)
    requires
        from <= to <= s@.len(),
    ensures
        final(out)@ == old(out)@ + without_parens(s@.subrange(from as int, to as int)),
{
    let ghost keep = |c: char| c != '(' && c != ')';
    let mut i: usize = from;
    assert(s@.subrange(from as int, from as int).filter(keep) =~= Seq::<char>::empty()) by {
        reveal(Seq::filter);
    }
    while i < to
        invariant
            from <= i <= to <= s@.len(),
            keep == (|c: char| c != '(' && c != ')'),
            out@ == old(out)@ + s@.subrange(from as int, i as int).filter(keep),
        decreases to - i,
    {
        let c = s.get_char(i);
        proof {
            assert(s@.subrange(from as int, i + 1) =~= s@.subrange(from as int, i as int).push(c));
            s@.subrange(from as int, i as int).lemma_filter_push(c, keep);
        }
        if c != '(' && c != ')' {
            push_char(out, c);
            assert(old(out)@ + s@.subrange(from as int, i as int).filter(keep).push(c) =~= old(out)@
                + s@.subrange(from as int, i as int).filter(keep).push(c));
        }
        i = i + 1;
    }
}

/// The operating system version as the system panel shows it.
pub fn os_version_text(raw: &str) -> (r: String)
    ensures
        r@ == version_text(raw@),
{
    let n = raw.unicode_len();
    let found = find_paren(raw);
    let end = match found {
        Some(i) => i,
        None => n,
    };
    let mut r = String::new();
    push_without_parens(&mut r, raw, 0, end);
    proof {
        match first_paren(raw@) {
            Some(i) => {
                assert(end == i);
                assert(raw@.subrange(0, end as int) =~= raw@.take(i));
            },
            None => {
                assert(raw@.subrange(0, end as int) =~= raw@);
            },
        }
    }
    r
}

/// The kernel version as the system panel shows it.
pub fn kernel_version_text(raw: &str) -> (r: String)
    ensures
        r@ == kernel_text(raw@),
{
    let n = raw.unicode_len();
    let found = find_paren(raw);
    let start = match found {
        Some(i) => i + 1,
        None => 0,
    };
    let mut r = String::new();
    push_without_parens(&mut r, raw, start, n);
    proof {
        match first_paren(raw@) {
            Some(i) => {
                assert(start == i + 1);
                assert(raw@.subrange(start as int, n as int) =~= raw@.skip(i + 1));
            },
            None => {
                assert(raw@.subrange(start as int, n as int) =~= raw@);
            },
        }
    }
    r
}

/// The spaces between a process name and its memory use in the process
/// list, so that the memory use ends at the right border: the width less the
/// two lengths and the borders, and the selection mark once a row was selected.
pub fn process_row_padding(width: usize, name_len: usize, usage_len: usize, marked: bool) -> (r: usize)
    ensures
        r == (if width >= name_len + usage_len + (if marked { 5int } else { 3int }) {
            width - name_len - usage_len - (if marked { 5int } else { 3int })
        } else {
            0
        }),
{
    let border: usize = if marked { 5 } else { 3 };
    let taken = name_len.saturating_add(usage_len).saturating_add(border);
    if name_len as u128 + usage_len as u128 + border as u128 > usize::MAX as u128 {
        return 0;
    }
    width.saturating_sub(taken)
}

/// The largest of the lengths, 0 for none.
pub open spec fn longest(lengths: Seq<usize>) -> int
    decreases lengths.len(),
{
    if lengths.len() == 0 {
        0
    } else {
        let rest = longest(lengths.drop_last());
        if rest < lengths.last() { lengths.last() as int } else { rest }
    }
}

/// The width of the label column of the processor rows: one more than the
/// longest label, at most what a terminal dimension holds.
pub fn core_label_width(label_lengths: &Vec<usize>) -> (r: u16)
    ensures
        r == (if longest(label_lengths@) + 1 < 65535 { longest(label_lengths@) + 1 } else { 65535 }),
{
    let mut widest: usize = 0;
    let mut i: usize = 0;
    while i < label_lengths.len()
        invariant
            i <= label_lengths@.len(),
            widest == longest(label_lengths@.take(i as int)),
        decreases label_lengths@.len() - i,
    {
        assert(label_lengths@.take(i + 1).drop_last() =~= label_lengths@.take(i as int));
        if label_lengths[i] > widest {
            widest = label_lengths[i];
        }
        i = i + 1;
    }
    assert(label_lengths@.take(i as int) =~= label_lengths@);
    if widest >= 65534 {
        65535
    } else {
        (widest + 1) as u16
    }
}

} // verus!
