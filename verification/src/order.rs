//! The order of files: natural comparison of names, so "img2" comes before
//! "img10", with the full path as the tie break.

use vstd::prelude::*;

use crate::path::{file_name, FilePath};
use crate::text::same_text;

verus! {

/// The characters that natural comparison sees in a text: lower case, and
/// letters and digits transliterated to ASCII.
pub uninterp spec fn lexical_form(text: Seq<char>) -> Seq<char>;

/// How two texts compare naturally: -1 for before, 0 for equal, 1 for after.
pub uninterp spec fn natural_rank(a: Seq<char>, b: Seq<char>) -> int;

/// The characters of `lexical_sort::iter::iterate_lexical`, in order. The
/// contract claims only that they depend on nothing but the text.
#[verifier::external_body]
fn lexical_characters(text: &str) -> (out: Vec<char>)
    ensures
        out@ == lexical_form(text@),
{
    lexical_sort::iter::iterate_lexical(text).collect()
}

pub open spec fn is_digit(c: char) -> bool {
    '0' <= c && c <= '9'
}

/// How many digits a text starts with.
pub open spec fn leading_digits(s: Seq<char>) -> nat
    decreases s.len(),
{
    if s.len() > 0 && is_digit(s[0]) {
        1 + leading_digits(s.skip(1))
    } else {
        0
    }
}

/// The number that some digits spell.
pub open spec fn number(digits: Seq<char>) -> int
    decreases digits.len(),
{
    if digits.len() == 0 {
        0
    } else {
        10 * number(digits.drop_last()) + (digits.last() as int - '0' as int)
    }
}

/// The digits that the numbers at the front of two texts share: as many as
/// the shorter one has.
pub open spec fn shared_digits(a: Seq<char>, b: Seq<char>) -> int {
    if leading_digits(a) < leading_digits(b) {
        leading_digits(a) as int
    } else {
        leading_digits(b) as int
    }
}

/// Whether natural comparison of two texts, character by character and number
/// by number, reads only what fits in 64 bits. It reads two numbers as far as
/// both have digits, and goes on behind them only where they are the same.
pub open spec fn forms_comparable(a: Seq<char>, b: Seq<char>) -> bool
    decreases a.len(),
{
    if a.len() == 0 || b.len() == 0 {
        true
    } else if is_digit(a[0]) && is_digit(b[0]) {
        proof {
            leading_digits_are_digits(a);
            leading_digits_are_digits(b);
        }
        let shared = shared_digits(a, b);
        let x = number(a.take(shared));
        let y = number(b.take(shared));
        &&& x <= u64::MAX
        &&& y <= u64::MAX
        &&& leading_digits(a) == leading_digits(b) && x == y ==> forms_comparable(
            a.skip(shared),
            b.skip(shared),
        )
    } else if a[0] != b[0] {
        true
    } else {
        forms_comparable(a.skip(1), b.skip(1))
    }
}

/// Whether two texts can be compared naturally.
pub open spec fn comparable(a: Seq<char>, b: Seq<char>) -> bool {
    forms_comparable(lexical_form(a), lexical_form(b))
}

/// Whether twenty digits in a row stand at a place of a text.
pub open spec fn long_number_at(s: Seq<char>, i: int) -> bool {
    &&& 0 <= i <= s.len() - 20
    &&& forall|k: int| i <= k < i + 20 ==> is_digit(#[trigger] s[k])
}

/// Whether no number in a text has more than 19 digits.
pub open spec fn short_numbers(s: Seq<char>) -> bool {
    forall|i: int| !#[trigger] long_number_at(s, i)
}

/// `lexical_sort::natural_lexical_cmp`. Its documentation calls the result a
/// total order in which two texts are equal only when they hold the same
/// characters; the contract says so of the result. The function reads two
/// numbers side by side into 64 bits each, hence the condition that what it
/// reads of them fits.
#[verifier::external_body]
fn natural_order(a: &str, b: &str) -> (rank: i8)
    requires
        comparable(a@, b@),
    ensures
        rank == natural_rank(a@, b@),
        -1 <= rank <= 1,
        rank == 0 <==> a@ == b@,
        natural_rank(b@, a@) == -rank,
        forall|c: Seq<char>|
            comparable(c, a@) && comparable(c, b@) && rank <= 0 && #[trigger] natural_rank(c, a@)
                <= 0 ==> natural_rank(c, b@) <= 0,
        forall|c: Seq<char>|
            comparable(c, a@) && comparable(c, b@) && rank >= 0 && #[trigger] natural_rank(a@, c)
                <= 0 ==> natural_rank(b@, c) <= 0,
{
    match lexical_sort::natural_lexical_cmp(a, b) {
        std::cmp::Ordering::Less => -1,
        std::cmp::Ordering::Equal => 0,
        std::cmp::Ordering::Greater => 1,
    }
}

/// Digits at the front of a text are digits, and the next character is none.
pub proof fn leading_digits_are_digits(s: Seq<char>)
    ensures
        leading_digits(s) <= s.len(),
        forall|k: int| 0 <= k < leading_digits(s) ==> is_digit(#[trigger] s[k]),
        leading_digits(s) < s.len() ==> !is_digit(s[leading_digits(s) as int]),
        s.len() > 0 && is_digit(s[0]) ==> leading_digits(s) > 0,
    decreases s.len(),
{
    if s.len() > 0 && is_digit(s[0]) {
        let rest = s.skip(1);
        leading_digits_are_digits(rest);
        assert forall|k: int| 0 <= k < leading_digits(s) implies is_digit(#[trigger] s[k]) by {
            if k > 0 {
                assert(s[k] == rest[k - 1]);
            }
        }
        if leading_digits(s) < s.len() {
            assert(s[leading_digits(s) as int] == rest[leading_digits(rest) as int]);
        }
    }
}

/// How many digits there are from a place on.
fn count_digits(form: &Vec<char>, from: usize) -> (count: usize)
    requires
        from <= form.len(),
    ensures
        count == leading_digits(form@.skip(from as int)),
        from + count <= form.len(),
{
    let mut end: usize = from;
    let ghost whole = leading_digits(form@.skip(from as int));
    while end < form.len() && '0' <= form[end] && form[end] <= '9'
        invariant
            from <= end <= form.len(),
            whole == end - from + leading_digits(form@.skip(end as int)),
        decreases form.len() - end,
    {
        assert(form@.skip(end as int).skip(1) =~= form@.skip(end + 1));
        end += 1;
    }
    end - from
}

/// The number that some digits spell, where it fits in 64 bits.
fn read_number(form: &Vec<char>, from: usize, count: usize) -> (value: Option<u64>)
    requires
        from + count <= form.len(),
        forall|k: int| from <= k < from + count ==> is_digit(#[trigger] form@[k]),
    ensures
        match value {
            Some(n) => n == number(form@.skip(from as int).take(count as int)),
            None => number(form@.skip(from as int).take(count as int)) > u64::MAX,
        },
{
    let ghost rest = form@.skip(from as int);
    let mut value: Option<u64> = Some(0);
    let mut i: usize = 0;
    while i < count
        invariant
            i <= count,
            from + count <= form.len(),
            rest == form@.skip(from as int),
            forall|k: int| from <= k < from + count ==> is_digit(#[trigger] form@[k]),
            match value {
                Some(n) => n == number(rest.take(i as int)),
                None => number(rest.take(i as int)) > u64::MAX,
            },
        decreases count - i,
    {
        let c = form[from + i];
        assert(is_digit(form@[from + i]));
        assert(rest.take(i + 1).drop_last() =~= rest.take(i as int));
        assert(rest.take(i + 1).last() == c);
        let digit = c as u64 - '0' as u64;
        value = match value {
            Some(n) => match n.checked_mul(10) {
                Some(tens) => tens.checked_add(digit),
                None => None,
            },
            None => None,
        };
        i += 1;
    }
    value
}

/// Whether natural comparison of what it sees in two texts reads only numbers
/// that fit in 64 bits.
pub fn can_compare_forms(a: &Vec<char>, b: &Vec<char>) -> (fine: bool)
    ensures
        fine == forms_comparable(a@, b@),
{
    let mut k: usize = 0;
    assert(a@.skip(0) =~= a@ && b@.skip(0) =~= b@);
    while k < a.len() && k < b.len()
        invariant
            k <= a.len(),
            k <= b.len(),
            forms_comparable(a@, b@) == forms_comparable(a@.skip(k as int), b@.skip(k as int)),
        decreases a.len() - k,
    {
        let ghost x = a@.skip(k as int);
        let ghost y = b@.skip(k as int);
        let c = a[k];
        let d = b[k];
        assert(x[0] == c && y[0] == d);
        if '0' <= c && c <= '9' && '0' <= d && d <= '9' {
            let of_a = count_digits(a, k);
            let of_b = count_digits(b, k);
            let shared = if of_a < of_b {
                of_a
            } else {
                of_b
            };
            proof {
                leading_digits_are_digits(x);
                leading_digits_are_digits(y);
                assert forall|i: int| k <= i < k + shared implies is_digit(#[trigger] a@[i]) by {
                    assert(a@[i] == x[i - k]);
                }
                assert forall|i: int| k <= i < k + shared implies is_digit(#[trigger] b@[i]) by {
                    assert(b@[i] == y[i - k]);
                }
                assert(x.skip(shared as int) =~= a@.skip(k + shared));
                assert(y.skip(shared as int) =~= b@.skip(k + shared));
            }
            match (read_number(a, k, shared), read_number(b, k, shared)) {
                (Some(m), Some(n)) => {
                    if of_a != of_b || m != n {
                        return true;
                    }
                },
                _ => {
                    return false;
                },
            }
            k += shared;
        } else if c != d {
            return true;
        } else {
            assert(x.skip(1) =~= a@.skip(k + 1));
            assert(y.skip(1) =~= b@.skip(k + 1));
            k += 1;
        }
    }
    true
}

/// Whether two texts can be compared naturally.
pub fn can_compare_texts(a: &str, b: &str) -> (fine: bool)
    ensures
        fine == comparable(a@, b@),
{
    can_compare_forms(&lexical_characters(a), &lexical_characters(b))
}

/// Whether natural comparison sees only short numbers in `text`.
pub fn has_short_numbers(text: &str) -> (short: bool)
    ensures
        short == short_numbers(lexical_form(text@)),
{
    are_short(&lexical_characters(text))
}

/// Whether no number in some characters has more than 19 digits.
pub fn are_short(form: &Vec<char>) -> (short: bool)
    ensures
        short == short_numbers(form@),
{
    let mut run: usize = 0;
    let mut i: usize = 0;
    while i < form.len()
        invariant
            i <= form.len(),
            run <= 19,
            run <= i,
            forall|k: int| i - run <= k < i ==> is_digit(#[trigger] form@[k]),
            run < i ==> !is_digit(form@[i - run - 1]),
            forall|p: int| p + 20 <= i ==> !#[trigger] long_number_at(form@, p),
        decreases form.len() - i,
    {
        let c = form[i];
        if '0' <= c && c <= '9' {
            run += 1;
        } else {
            run = 0;
        }
        if run > 19 {
            assert(long_number_at(form@, i - 19));
            return false;
        }
        i += 1;
        assert forall|p: int| p + 20 <= i implies !#[trigger] long_number_at(form@, p) by {
            if p + 20 == i && long_number_at(form@, p) {
                assert(is_digit(form@[i - run - 1]));
            }
        }
    }
    true
}

/// Comparing is possible both ways or not at all.
pub proof fn comparable_both_ways(a: Seq<char>, b: Seq<char>)
    ensures
        comparable(a, b) == comparable(b, a),
{
    forms_comparable_both_ways(lexical_form(a), lexical_form(b));
}

proof fn forms_comparable_both_ways(a: Seq<char>, b: Seq<char>)
    ensures
        forms_comparable(a, b) == forms_comparable(b, a),
    decreases a.len(),
{
    if a.len() > 0 && b.len() > 0 {
        leading_digits_are_digits(a);
        leading_digits_are_digits(b);
        let shared = shared_digits(a, b);
        if is_digit(a[0]) && is_digit(b[0]) {
            forms_comparable_both_ways(a.skip(shared), b.skip(shared));
        } else if a[0] == b[0] {
            forms_comparable_both_ways(a.skip(1), b.skip(1));
        }
    }
}

/// Ten to a power.
spec fn ten_to(n: nat) -> int
    decreases n,
{
    if n == 0 {
        1
    } else {
        10 * ten_to((n - 1) as nat)
    }
}

proof fn number_is_bounded(digits: Seq<char>)
    requires
        forall|k: int| 0 <= k < digits.len() ==> is_digit(#[trigger] digits[k]),
    ensures
        0 <= number(digits) < ten_to(digits.len()),
    decreases digits.len(),
{
    if digits.len() > 0 {
        assert forall|k: int| 0 <= k < digits.len() - 1 implies is_digit(
            #[trigger] digits.drop_last()[k],
        ) by {
            assert(digits.drop_last()[k] == digits[k]);
        }
        number_is_bounded(digits.drop_last());
        assert(is_digit(digits[digits.len() - 1]));
    }
}

proof fn powers_grow(m: nat, n: nat)
    requires
        m <= n,
    ensures
        0 < ten_to(m) <= ten_to(n),
    decreases n,
{
    if m < n {
        powers_grow(m, (n - 1) as nat);
    } else if n > 0 {
        powers_grow((m - 1) as nat, (n - 1) as nat);
    }
}

/// Short numbers compare with anything.
pub proof fn short_numbers_compare(a: Seq<char>, b: Seq<char>)
    requires
        short_numbers(a),
    ensures
        forms_comparable(a, b),
    decreases a.len(),
{
    if a.len() > 0 && b.len() > 0 {
        leading_digits_are_digits(a);
        leading_digits_are_digits(b);
        let shared = shared_digits(a, b);
        let step = if is_digit(a[0]) && is_digit(b[0]) {
            shared
        } else {
            1
        };
        assert forall|i: int| !#[trigger] long_number_at(a.skip(step), i) by {
            if long_number_at(a.skip(step), i) {
                assert forall|k: int| i + step <= k < i + step + 20 implies is_digit(
                    #[trigger] a[k],
                ) by {
                    assert(is_digit(a.skip(step)[k - step]));
                }
                assert(long_number_at(a, i + step));
            }
        }
        short_numbers_compare(a.skip(step), b.skip(step));
        if is_digit(a[0]) && is_digit(b[0]) {
            if shared > 19 {
                assert(long_number_at(a, 0));
            }
            number_is_bounded(a.take(shared));
            number_is_bounded(b.take(shared));
            powers_grow(shared as nat, 19);
            reveal_with_fuel(ten_to, 20);
        }
    }
}

/// Compare two texts naturally, or give nothing where a number that the
/// comparison reads does not fit.
pub fn natural_str_order(a: &str, b: &str) -> (rank: Option<i8>)
    ensures
        match rank {
            Some(r) => comparable(a@, b@) && r == natural_rank(a@, b@) && -1 <= r <= 1 && (r == 0
                <==> a@ == b@),
            None => !comparable(a@, b@),
        },
{
    if can_compare_texts(a, b) {
        Some(natural_order(a, b))
    } else {
        None
    }
}

/// The name that a path is ordered by: its file name, or nothing.
pub open spec fn order_name(path: Seq<char>) -> Seq<char> {
    match file_name(path) {
        Some(name) => name,
        None => Seq::empty(),
    }
}

/// How two files compare: by name, and by path where the names are equal.
pub open spec fn file_rank(a: Seq<char>, b: Seq<char>) -> int {
    if order_name(a) == order_name(b) {
        natural_rank(a, b)
    } else {
        natural_rank(order_name(a), order_name(b))
    }
}

/// Whether two files can be compared.
pub open spec fn files_comparable(a: Seq<char>, b: Seq<char>) -> bool {
    if order_name(a) == order_name(b) {
        comparable(order_name(a), order_name(b)) && comparable(a, b)
    } else {
        comparable(order_name(a), order_name(b))
    }
}

/// The name that a path is ordered by.
fn name_to_order(path: &FilePath) -> (name: String)
    ensures
        name@ == order_name(path@),
{
    match path.file_name() {
        Some(name) => name,
        None => String::new(),
    }
}

/// Finder-like order: natural comparison of the file names, full paths as
/// the tie break.
pub fn file_order(a: &FilePath, b: &FilePath) -> (rank: i8)
    requires
        files_comparable(a@, b@),
    ensures
        rank == file_rank(a@, b@),
        -1 <= rank <= 1,
        rank == 0 <==> a@ == b@,
        file_rank(b@, a@) == -rank,
        forall|c: Seq<char>|
            files_comparable(c, a@) && files_comparable(c, b@) && rank <= 0 && #[trigger] file_rank(
                c,
                a@,
            ) <= 0 ==> file_rank(c, b@) <= 0,
        forall|c: Seq<char>|
            files_comparable(c, a@) && files_comparable(c, b@) && rank >= 0 && #[trigger] file_rank(
                a@,
                c,
            ) <= 0 ==> file_rank(b@, c) <= 0,
{
    let name_a = name_to_order(a);
    let name_b = name_to_order(b);
    let by_name = natural_order(name_a.as_str(), name_b.as_str());
    if by_name != 0 {
        by_name
    } else {
        natural_order(a.as_text(), b.as_text())
    }
}

/// What the browser knows of one image file. Dates are seconds since the
/// Unix epoch.
pub struct FileInfo {
    pub path: FilePath,
    pub size: u64,
    pub modified: i64,
    /// When the picture was taken, where the file says so.
    pub taken: Option<i64>,
    /// When the file came into its folder, where the disk keeps that.
    pub added: Option<i64>,
}

impl Clone for FileInfo {
    fn clone(&self) -> (copy: Self)
        ensures
            copy == *self,
    {
        FileInfo {
            path: self.path.clone(),
            size: self.size,
            modified: self.modified,
            taken: self.taken,
            added: self.added,
        }
    }
}

/// What the grid can be sorted by.
#[derive(Clone, Copy, Debug, PartialEq, Eq, Structural)]
pub enum SortOrder {
    Name,
    Modified,
    Size,
    Path,
    ExifDate,
    Added,
}

/// The number that an order sorts by, where it sorts by one. A missing date
/// falls back to the date modified.
pub open spec fn sort_key(info: FileInfo, order: SortOrder) -> int {
    match order {
        SortOrder::Name => 0,
        SortOrder::Path => 0,
        SortOrder::Modified => info.modified as int,
        SortOrder::Size => info.size as int,
        SortOrder::ExifDate => match info.taken {
            Some(date) => date as int,
            None => info.modified as int,
        },
        SortOrder::Added => match info.added {
            Some(date) => date as int,
            None => info.modified as int,
        },
    }
}

/// How two files compare in an order: by its number, and as
/// [`file_rank`] says where the numbers are equal. The path order compares
/// full paths.
pub open spec fn info_rank(a: FileInfo, b: FileInfo, order: SortOrder) -> int {
    if order == SortOrder::Path {
        natural_rank(a.path@, b.path@)
    } else if sort_key(a, order) < sort_key(b, order) {
        -1
    } else if sort_key(a, order) > sort_key(b, order) {
        1
    } else {
        file_rank(a.path@, b.path@)
    }
}

/// Whether two files can be compared in an order.
pub open spec fn infos_comparable(a: FileInfo, b: FileInfo, order: SortOrder) -> bool {
    if order == SortOrder::Path {
        comparable(a.path@, b.path@)
    } else {
        sort_key(a, order) == sort_key(b, order) ==> files_comparable(a.path@, b.path@)
    }
}

/// [`info_rank`], turned round for a descending sort.
pub open spec fn sort_rank(a: FileInfo, b: FileInfo, order: SortOrder, descending: bool) -> int {
    if descending {
        info_rank(b, a, order)
    } else {
        info_rank(a, b, order)
    }
}

/// Whether no file comes before one that it sorts behind.
pub open spec fn is_sorted(files: Seq<FileInfo>, order: SortOrder, descending: bool) -> bool {
    forall|i: int, j: int|
        0 <= i < j < files.len() ==> sort_rank(
            #[trigger] files[i],
            #[trigger] files[j],
            order,
            descending,
        ) <= 0
}

/// Whether two files are equal in an order: neither its number nor their
/// paths tell them apart.
pub open spec fn equal_in(a: FileInfo, b: FileInfo, order: SortOrder) -> bool {
    sort_key(a, order) == sort_key(b, order) && a.path@ == b.path@
}

/// The files that equal one, in the order they stand in.
pub open spec fn equals_of(
    files: Seq<FileInfo>,
    info: FileInfo,
    order: SortOrder,
) -> Seq<FileInfo> {
    files.filter(|f: FileInfo| equal_in(f, info, order))
}

/// Whether files that are equal in an order stand in the same order in two
/// lists, and as many of them in both.
pub open spec fn keeps_equals(
    before: Seq<FileInfo>,
    after: Seq<FileInfo>,
    order: SortOrder,
) -> bool {
    forall|info: FileInfo| #[trigger]
        equals_of(after, info, order) == equals_of(before, info, order)
}

/// Whether any two of the files can be compared.
pub open spec fn all_comparable(files: Seq<FileInfo>, order: SortOrder) -> bool {
    forall|i: int, j: int|
        0 <= i < files.len() && 0 <= j < files.len() && i != j ==> infos_comparable(
            #[trigger] files[i],
            #[trigger] files[j],
            order,
        )
}

fn key_to_sort(info: &FileInfo, order: SortOrder) -> (key: i128)
    ensures
        key == sort_key(*info, order),
{
    match order {
        SortOrder::Name | SortOrder::Path => 0,
        SortOrder::Modified => info.modified as i128,
        SortOrder::Size => info.size as i128,
        SortOrder::ExifDate => match info.taken {
            Some(date) => date as i128,
            None => info.modified as i128,
        },
        SortOrder::Added => match info.added {
            Some(date) => date as i128,
            None => info.modified as i128,
        },
    }
}

/// How two files compare, given the numbers that they are sorted by and how
/// they compare where those are equal.
pub fn settled_rank(key_a: i128, key_b: i128, tie: i8, descending: bool) -> (rank: i8)
    requires
        -1 <= tie <= 1,
    ensures
        ({
            let ascending: int = if key_a < key_b {
                -1
            } else if key_a > key_b {
                1
            } else {
                tie as int
            };
            rank == (if descending {
                -ascending
            } else {
                ascending
            })
        }),
{
    let ascending: i8 = if key_a < key_b {
        -1
    } else if key_a > key_b {
        1
    } else {
        tie
    };
    if descending {
        -ascending
    } else {
        ascending
    }
}

/// Compare two files in an order.
pub fn file_info_order(a: &FileInfo, b: &FileInfo, order: SortOrder, descending: bool) -> (rank: i8)
    requires
        infos_comparable(*a, *b, order),
    ensures
        rank == sort_rank(*a, *b, order, descending),
        -1 <= rank <= 1,
        rank == 0 <==> equal_in(*a, *b, order),
        sort_rank(*b, *a, order, descending) == -rank,
        forall|c: FileInfo|
            infos_comparable(c, *a, order) && infos_comparable(c, *b, order) && rank <= 0
                && #[trigger] sort_rank(c, *a, order, descending) <= 0 ==> sort_rank(
                c,
                *b,
                order,
                descending,
            ) <= 0,
        forall|c: FileInfo|
            infos_comparable(c, *a, order) && infos_comparable(c, *b, order) && rank >= 0
                && #[trigger] sort_rank(*a, c, order, descending) <= 0 ==> sort_rank(
                *b,
                c,
                order,
                descending,
            ) <= 0,
{
    let key_a = key_to_sort(a, order);
    let key_b = key_to_sort(b, order);
    let tie: i8 = if order == SortOrder::Path {
        natural_order(a.path.as_text(), b.path.as_text())
    } else if key_a == key_b {
        file_order(&a.path, &b.path)
    } else {
        0
    };
    settled_rank(key_a, key_b, tie, descending)
}

/// Where nothing passes, nothing is left.
proof fn nothing_passes<A>(s: Seq<A>, pass: spec_fn(A) -> bool)
    requires
        forall|i: int| 0 <= i < s.len() ==> !pass(#[trigger] s[i]),
    ensures
        s.filter(pass) == Seq::<A>::empty(),
    decreases s.len(),
{
    reveal(Seq::filter);
    if s.len() > 0 {
        let front = s.drop_last();
        assert forall|i: int| 0 <= i < front.len() implies !pass(#[trigger] front[i]) by {
            assert(front[i] == s[i]);
        }
        nothing_passes(front, pass);
        assert(s.last() == s[s.len() - 1]);
    }
}

proof fn filter_of_push<A>(s: Seq<A>, x: A, pass: spec_fn(A) -> bool)
    ensures
        s.push(x).filter(pass) == (if pass(x) {
            s.filter(pass).push(x)
        } else {
            s.filter(pass)
        }),
{
    reveal(Seq::filter);
    assert(s.push(x).drop_last() =~= s);
}

/// What is put behind all that passes comes last, and what is put before all
/// that passes comes first.
proof fn filter_of_insert<A>(s: Seq<A>, i: int, x: A, pass: spec_fn(A) -> bool)
    requires
        0 <= i <= s.len(),
    ensures
        (pass(x) ==> forall|j: int| i <= j < s.len() ==> !pass(#[trigger] s[j])) ==> s.insert(
            i,
            x,
        ).filter(pass) == s.push(x).filter(pass),
        (pass(x) ==> forall|j: int| 0 <= j < i ==> !pass(#[trigger] s[j])) ==> s.insert(
            i,
            x,
        ).filter(pass) == (seq![x] + s).filter(pass),
{
    let front = s.take(i);
    let back = s.skip(i);
    let one = seq![x];
    assert(s =~= front + back);
    assert(s.insert(i, x) =~= (front + one) + back);
    assert(s.push(x) =~= (front + back) + one);
    assert(one + s =~= (one + front) + back);
    Seq::filter_distributes_over_add(front + one, back, pass);
    Seq::filter_distributes_over_add(front, one, pass);
    Seq::filter_distributes_over_add(front + back, one, pass);
    Seq::filter_distributes_over_add(front, back, pass);
    Seq::filter_distributes_over_add(one + front, back, pass);
    Seq::filter_distributes_over_add(one, front, pass);
    let a = front.filter(pass);
    let b = back.filter(pass);
    let c = one.filter(pass);
    if !pass(x) {
        assert(one[0] == x);
        nothing_passes(one, pass);
        assert((a + c) + b =~= (a + b) + c);
        assert((a + c) + b =~= (c + a) + b);
    } else {
        if forall|j: int| i <= j < s.len() ==> !pass(#[trigger] s[j]) {
            assert forall|j: int| 0 <= j < back.len() implies !pass(#[trigger] back[j]) by {
                assert(back[j] == s[i + j]);
            }
            nothing_passes(back, pass);
            assert((a + c) + b =~= (a + b) + c);
        }
        if forall|j: int| 0 <= j < i ==> !pass(#[trigger] s[j]) {
            assert forall|j: int| 0 <= j < front.len() implies !pass(#[trigger] front[j]) by {
                assert(front[j] == s[j]);
            }
            nothing_passes(front, pass);
            assert((a + c) + b =~= (c + a) + b);
        }
    }
}

/// A file that goes behind its equals stays the last of them.
proof fn insert_keeps_equals(files: Seq<FileInfo>, i: int, info: FileInfo, order: SortOrder)
    requires
        0 <= i <= files.len(),
        forall|j: int| i <= j < files.len() ==> !equal_in(#[trigger] files[j], info, order),
    ensures
        keeps_equals(files.push(info), files.insert(i, info), order),
{
    assert forall|f: FileInfo| #[trigger]
        equals_of(files.insert(i, info), f, order) == equals_of(files.push(info), f, order) by {
        filter_of_insert(files, i, info, |g: FileInfo| equal_in(g, f, order));
    }
}

/// Put a file where it sorts, behind its equals, and say where that is.
pub fn insert_sorted(
    files: &mut Vec<FileInfo>,
    info: FileInfo,
    order: SortOrder,
    descending: bool,
) -> (index: usize)
    requires
        is_sorted(old(files)@, order, descending),
        all_comparable(old(files)@.push(info), order),
    ensures
        index <= old(files)@.len(),
        final(files)@ == old(files)@.insert(index as int, info),
        is_sorted(final(files)@, order, descending),
        forall|i: int|
            index <= i < old(files)@.len() ==> !equal_in(#[trigger] old(files)@[i], info, order),
{
    let mut low: usize = 0;
    let mut high: usize = files.len();
    let ghost extended = files@.push(info);
    let ghost count = files@.len() as int;
    while low < high
        invariant
            low <= high <= files.len(),
            count == files@.len(),
            files@ == old(files)@,
            extended == files@.push(info),
            is_sorted(files@, order, descending),
            all_comparable(extended, order),
            forall|i: int|
                0 <= i < low ==> sort_rank(#[trigger] files@[i], info, order, descending) <= 0,
            forall|i: int|
                high <= i < count ==> sort_rank(info, #[trigger] files@[i], order, descending) <= 0
                    && !equal_in(files@[i], info, order),
        decreases high - low,
    {
        let mid = low + (high - low) / 2;
        assert(extended[mid as int] == files@[mid as int]);
        assert(extended[count] == info);
        let rank = file_info_order(&files[mid], &info, order, descending);
        proof {
            let at = files@[mid as int];
            assert forall|i: int| 0 <= i < count && i != mid implies infos_comparable(
                #[trigger] files@[i],
                at,
                order,
            ) && infos_comparable(files@[i], info, order) by {
                assert(extended[i] == files@[i]);
            }
            if rank <= 0 {
                assert forall|i: int| 0 <= i < mid + 1 implies sort_rank(
                    #[trigger] files@[i],
                    info,
                    order,
                    descending,
                ) <= 0 by {
                    if i < mid {
                        assert(sort_rank(files@[i], at, order, descending) <= 0);
                    }
                }
            } else {
                assert forall|i: int| mid <= i < count implies sort_rank(
                    info,
                    #[trigger] files@[i],
                    order,
                    descending,
                ) <= 0 && !equal_in(files@[i], info, order) by {
                    if i > mid {
                        assert(sort_rank(at, files@[i], order, descending) <= 0);
                        if equal_in(files@[i], info, order) {
                            assert(sort_rank(at, files@[i], order, descending) == rank);
                        }
                    }
                }
            }
        }
        if rank <= 0 {
            low = mid + 1;
        } else {
            high = mid;
        }
    }
    files.insert(low, info);
    low
}

/// Whether two files can be compared in an order.
pub fn can_compare(a: &FileInfo, b: &FileInfo, order: SortOrder) -> (fine: bool)
    ensures
        fine == infos_comparable(*a, *b, order),
{
    if order == SortOrder::Path {
        can_compare_texts(a.path.as_text(), b.path.as_text())
    } else if key_to_sort(a, order) == key_to_sort(b, order) {
        let name_a = name_to_order(&a.path);
        let name_b = name_to_order(&b.path);
        can_compare_texts(name_a.as_str(), name_b.as_str()) && (!same_text(
            name_a.as_str(),
            name_b.as_str(),
        ) || can_compare_texts(a.path.as_text(), b.path.as_text()))
    } else {
        true
    }
}

/// Files can be compared both ways or not at all.
pub proof fn infos_comparable_both_ways(a: FileInfo, b: FileInfo, order: SortOrder)
    ensures
        infos_comparable(a, b, order) == infos_comparable(b, a, order),
{
    comparable_both_ways(a.path@, b.path@);
    comparable_both_ways(order_name(a.path@), order_name(b.path@));
}

/// Whether a file can be compared with each of `files`, the one at `skip`
/// left out.
pub fn fits_beside(files: &Vec<FileInfo>, skip: usize, info: &FileInfo, order: SortOrder) -> (fine:
    bool)
    ensures
        fine == (forall|j: int|
            0 <= j < files@.len() && j != skip ==> infos_comparable(
                *info,
                #[trigger] files@[j],
                order,
            )),
{
    // Short numbers compare with anything.
    if has_short_numbers(name_to_order(&info.path).as_str()) && has_short_numbers(
        info.path.as_text(),
    ) {
        proof {
            assert forall|j: int| 0 <= j < files@.len() implies infos_comparable(
                *info,
                #[trigger] files@[j],
                order,
            ) by {
                let other = files@[j].path@;
                short_numbers_compare(lexical_form(info.path@), lexical_form(other));
                short_numbers_compare(
                    lexical_form(order_name(info.path@)),
                    lexical_form(order_name(other)),
                );
            }
        }
        return true;
    }
    let mut j: usize = 0;
    while j < files.len()
        invariant
            j <= files.len(),
            forall|q: int|
                0 <= q < j && q != skip ==> infos_comparable(*info, #[trigger] files@[q], order),
        decreases files.len() - j,
    {
        if j != skip && !can_compare(info, &files[j], order) {
            return false;
        }
        j += 1;
    }
    true
}

/// Whether any two of the files can be compared in an order.
pub fn can_sort(files: &Vec<FileInfo>, order: SortOrder) -> (fine: bool)
    ensures
        fine == all_comparable(files@, order),
{
    let mut i: usize = 0;
    while i < files.len()
        invariant
            i <= files.len(),
            forall|p: int, q: int|
                0 <= p < i && 0 <= q < files@.len() && p != q ==> infos_comparable(
                    #[trigger] files@[p],
                    #[trigger] files@[q],
                    order,
                ),
        decreases files.len() - i,
    {
        if !fits_beside(files, i, &files[i], order) {
            return false;
        }
        i += 1;
    }
    true
}

/// Sort files anew. Files that are equal keep their order.
pub fn sort_files(files: Vec<FileInfo>, order: SortOrder, descending: bool) -> (out: Vec<FileInfo>)
    requires
        all_comparable(files@, order),
    ensures
        is_sorted(out@, order, descending),
        out@.to_multiset() == files@.to_multiset(),
        out@.len() == files@.len(),
        keeps_equals(files@, out@, order),
{
    let mut out: Vec<FileInfo> = Vec::new();
    let mut i: usize = 0;
    let ghost taken: Seq<int> = Seq::empty();
    assert(files@.take(0) =~= Seq::empty());
    while i < files.len()
        invariant
            i <= files.len(),
            all_comparable(files@, order),
            is_sorted(out@, order, descending),
            out@.len() == i,
            out@.to_multiset() == files@.take(i as int).to_multiset(),
            keeps_equals(files@.take(i as int), out@, order),
            taken.len() == out@.len(),
            forall|p: int|
                0 <= p < taken.len() ==> 0 <= #[trigger] taken[p] < i && out@[p]
                    == files@[taken[p]],
            forall|p: int, q: int|
                0 <= p < taken.len() && 0 <= q < taken.len() && p != q ==> #[trigger] taken[p]
                    != #[trigger] taken[q],
        decreases files.len() - i,
    {
        let info = files[i].clone();
        let ghost before = out@;
        proof {
            let extended = out@.push(info);
            assert forall|p: int, q: int|
                0 <= p < extended.len() && 0 <= q < extended.len() && p != q implies infos_comparable(
                #[trigger] extended[p],
                #[trigger] extended[q],
                order,
            ) by {
                let a = if p < taken.len() { taken[p] } else { i as int };
                let b = if q < taken.len() { taken[q] } else { i as int };
                assert(infos_comparable(files@[a], files@[b], order));
            }
        }
        let index = insert_sorted(&mut out, info, order, descending);
        proof {
            taken = taken.insert(index as int, i as int);
            assert(files@.take(i + 1) =~= files@.take(i as int).push(info));
            broadcast use vstd::seq_lib::group_to_multiset_ensures;

            vstd::seq_lib::to_multiset_insert(before, index as int, info);
            insert_keeps_equals(before, index as int, info, order);
            assert forall|f: FileInfo| #[trigger]
                equals_of(out@, f, order) == equals_of(files@.take(i + 1), f, order) by {
                let pass = |g: FileInfo| equal_in(g, f, order);
                assert(equals_of(before, f, order) == equals_of(files@.take(i as int), f, order));
                assert(equals_of(before.insert(index as int, info), f, order) == equals_of(
                    before.push(info),
                    f,
                    order,
                ));
                filter_of_push(before, info, pass);
                filter_of_push(files@.take(i as int), info, pass);
            }
        }
        i += 1;
    }
    assert(files@.take(i as int) =~= files@);
    out
}

/// Whether no name comes before one that it sorts behind.
pub open spec fn names_sorted<T>(items: Seq<(String, T)>) -> bool {
    forall|i: int, j: int|
        0 <= i < j < items.len() ==> natural_rank(
            (#[trigger] items[i]).0@,
            (#[trigger] items[j]).0@,
        ) <= 0
}

/// The things of a name, in the order they stand in.
pub open spec fn named<T>(items: Seq<(String, T)>, name: Seq<char>) -> Seq<(String, T)> {
    items.filter(|item: (String, T)| item.0@ == name)
}

/// Whether things of the same name stand in the same order in two lists, and
/// as many of them in both.
pub open spec fn keeps_namesakes<T>(before: Seq<(String, T)>, after: Seq<(String, T)>) -> bool {
    forall|name: Seq<char>| #[trigger] named(after, name) == named(before, name)
}

/// Whether any two of the names can be compared.
pub open spec fn names_comparable<T>(items: Seq<(String, T)>) -> bool {
    forall|i: int, j: int|
        0 <= i < items.len() && 0 <= j < items.len() && i != j ==> comparable(
            (#[trigger] items[i]).0@,
            (#[trigger] items[j]).0@,
        )
}

/// Whether any two of the names can be compared.
fn can_compare_names<T>(items: &Vec<(String, T)>) -> (fine: bool)
    ensures
        fine == names_comparable(items@),
{
    let mut i: usize = 0;
    while i < items.len()
        invariant
            i <= items.len(),
            forall|p: int, q: int|
                0 <= p < i && 0 <= q < items@.len() && p != q ==> comparable(
                    (#[trigger] items@[p]).0@,
                    (#[trigger] items@[q]).0@,
                ),
        decreases items.len() - i,
    {
        if !name_fits_beside(items, i) {
            return false;
        }
        i += 1;
    }
    true
}

/// Whether the name at a place can be compared with all others.
fn name_fits_beside<T>(items: &Vec<(String, T)>, place: usize) -> (fine: bool)
    requires
        place < items.len(),
    ensures
        fine == (forall|q: int|
            0 <= q < items@.len() && q != place ==> comparable(
                items@[place as int].0@,
                (#[trigger] items@[q]).0@,
            )),
{
    let name = items[place].0.as_str();
    if has_short_numbers(name) {
        proof {
            assert forall|q: int| 0 <= q < items@.len() implies comparable(
                name@,
                (#[trigger] items@[q]).0@,
            ) by {
                short_numbers_compare(lexical_form(name@), lexical_form(items@[q].0@));
            }
        }
        return true;
    }
    let mut j: usize = 0;
    while j < items.len()
        invariant
            j <= items.len(),
            place < items.len(),
            name@ == items@[place as int].0@,
            forall|q: int|
                0 <= q < j && q != place ==> comparable(name@, (#[trigger] items@[q]).0@),
        decreases items.len() - j,
    {
        if j != place && !can_compare_texts(name, items[j].0.as_str()) {
            return false;
        }
        j += 1;
    }
    true
}

/// Sort things by name, naturally. Namesakes keep their order. There is no
/// such order where two names cannot be compared.
pub fn sort_by_name<T>(items: Vec<(String, T)>) -> (out: Option<Vec<(String, T)>>)
    ensures
        match out {
            Some(sorted) => {
                &&& names_comparable(items@)
                &&& names_sorted(sorted@)
                &&& sorted@.to_multiset() == items@.to_multiset()
                &&& keeps_namesakes(items@, sorted@)
            },
            None => !names_comparable(items@),
        },
{
    if !can_compare_names(&items) {
        return None;
    }
    let ghost whole = items@;
    let mut rest = items;
    let mut out: Vec<(String, T)> = Vec::new();
    // Where each sorted item stood.
    let ghost mut from: Seq<int> = Seq::empty();
    assert(whole.take(whole.len() as int) =~= whole);
    assert(whole.skip(whole.len() as int) =~= Seq::empty());
    while rest.len() > 0
        invariant
            names_comparable(whole),
            rest@ == whole.take(rest@.len() as int),
            rest@.len() <= whole.len(),
            names_sorted(out@),
            out@.to_multiset() == whole.skip(rest@.len() as int).to_multiset(),
            keeps_namesakes(whole.skip(rest@.len() as int), out@),
            from.len() == out@.len(),
            forall|p: int|
                0 <= p < from.len() ==> rest@.len() <= #[trigger] from[p] < whole.len() && out@[p]
                    == whole[from[p]],
            forall|p: int, q: int|
                0 <= p < from.len() && 0 <= q < from.len() && p != q ==> #[trigger] from[p]
                    != #[trigger] from[q],
        decreases rest.len(),
    {
        let ghost left = rest@;
        let item = rest.pop().unwrap();
        let ghost at = rest@.len() as int;
        let ghost before = out@;
        assert(item == whole[at]);
        // It stood in front of all that is sorted, so it goes before its
        // equals.
        let mut i: usize = 0;
        let mut placed = false;
        while i < out.len() && !placed
            invariant
                i <= out.len(),
                out@ == before,
                item == whole[at],
                0 <= at < whole.len(),
                names_comparable(whole),
                names_sorted(out@),
                from.len() == out@.len(),
                forall|p: int|
                    0 <= p < from.len() ==> at + 1 <= #[trigger] from[p] < whole.len() && out@[p]
                        == whole[from[p]],
                forall|p: int, q: int|
                    0 <= p < from.len() && 0 <= q < from.len() && p != q ==> #[trigger] from[p]
                        != #[trigger] from[q],
                forall|p: int|
                    0 <= p < i ==> natural_rank((#[trigger] out@[p]).0@, item.0@) <= 0
                        && out@[p].0@ != item.0@,
                placed ==> forall|q: int|
                    i <= q < out@.len() ==> natural_rank(item.0@, (#[trigger] out@[q]).0@) <= 0,
            decreases out.len() - i + (if placed {
                0int
            } else {
                1
            }),
        {
            proof {
                assert forall|q: int| 0 <= q < out@.len() implies comparable(
                    (#[trigger] out@[q]).0@,
                    item.0@,
                ) by {
                    let k = from[q];
                    assert(comparable(whole[k].0@, whole[at].0@));
                }
                assert forall|q: int| i < q < out@.len() && from[q] != from[i as int] implies comparable(
                    (#[trigger] out@[q]).0@,
                    out@[i as int].0@,
                ) by {
                    let k = from[q];
                    let m = from[i as int];
                    assert(comparable(whole[k].0@, whole[m].0@));
                }
            }
            let rank = natural_order(out[i].0.as_str(), item.0.as_str());
            if rank < 0 {
                i += 1;
            } else {
                placed = true;
                proof {
                    assert forall|q: int| i <= q < out@.len() implies natural_rank(
                        item.0@,
                        (#[trigger] out@[q]).0@,
                    ) <= 0 by {
                        if q > i {
                            assert(natural_rank(out@[i as int].0@, out@[q].0@) <= 0);
                        }
                    }
                }
            }
        }
        out.insert(i, item);
        proof {
            from = from.insert(i as int, at);
            assert(whole.skip(at) =~= seq![item] + whole.skip(at + 1));
            broadcast use vstd::seq_lib::group_to_multiset_ensures;

            vstd::seq_lib::to_multiset_insert(before, i as int, item);
            vstd::seq_lib::to_multiset_insert(whole.skip(at + 1), 0, item);
            assert(whole.skip(at) =~= whole.skip(at + 1).insert(0, item));
            assert forall|name: Seq<char>| #[trigger] named(out@, name) == named(
                whole.skip(at),
                name,
            ) by {
                let pass = |item: (String, T)| item.0@ == name;
                assert(named(before, name) == named(whole.skip(at + 1), name));
                filter_of_insert(before, i as int, item, pass);
                Seq::filter_distributes_over_add(seq![item], before, pass);
                Seq::filter_distributes_over_add(seq![item], whole.skip(at + 1), pass);
            }
        }
    }
    assert(whole.skip(0) =~= whole);
    Some(out)
}

/// Sorted by date modified, the earlier date comes first, or last when
/// descending; files of the same date go by their names.
pub proof fn sorted_by_date_modified(files: Seq<FileInfo>, i: int, j: int)
    requires
        0 <= i < j < files.len(),
    ensures
        is_sorted(files, SortOrder::Modified, false) ==> files[i].modified < files[j].modified || (
        files[i].modified == files[j].modified && by_name_and_path(files[i], files[j])),
        is_sorted(files, SortOrder::Modified, true) ==> files[i].modified > files[j].modified || (
        files[i].modified == files[j].modified && by_name_and_path(files[j], files[i])),
{
}

/// Sorted by size, the smaller file comes first, or last when descending;
/// files of the same size go by their names.
pub proof fn sorted_by_size(files: Seq<FileInfo>, i: int, j: int)
    requires
        0 <= i < j < files.len(),
    ensures
        is_sorted(files, SortOrder::Size, false) ==> files[i].size < files[j].size || (
        files[i].size == files[j].size && by_name_and_path(files[i], files[j])),
        is_sorted(files, SortOrder::Size, true) ==> files[i].size > files[j].size || (
        files[i].size == files[j].size && by_name_and_path(files[j], files[i])),
{
}

/// Sorted by the date that the pictures were taken, the earlier date comes
/// first, or last when descending. A file that does not say when it was taken
/// stands where its date modified puts it, and files of the same date go by
/// their names.
pub proof fn sorted_by_date_taken(files: Seq<FileInfo>, i: int, j: int)
    requires
        0 <= i < j < files.len(),
    ensures
        is_sorted(files, SortOrder::ExifDate, false) && files[i].taken is Some && files[j].taken
            is Some ==> files[i].taken->0 < files[j].taken->0 || (files[i].taken->0
            == files[j].taken->0 && by_name_and_path(files[i], files[j])),
        is_sorted(files, SortOrder::ExifDate, true) && files[i].taken is Some && files[j].taken
            is Some ==> files[i].taken->0 > files[j].taken->0 || (files[i].taken->0
            == files[j].taken->0 && by_name_and_path(files[j], files[i])),
        is_sorted(files, SortOrder::ExifDate, false) && files[i].taken is None && files[j].taken
            is None ==> files[i].modified < files[j].modified || (files[i].modified
            == files[j].modified && by_name_and_path(files[i], files[j])),
        is_sorted(files, SortOrder::ExifDate, true) && files[i].taken is None && files[j].taken
            is None ==> files[i].modified > files[j].modified || (files[i].modified
            == files[j].modified && by_name_and_path(files[j], files[i])),
        is_sorted(files, SortOrder::ExifDate, false) && files[i].taken is Some && files[j].taken
            is None ==> files[i].taken->0 <= files[j].modified,
        is_sorted(files, SortOrder::ExifDate, true) && files[i].taken is Some && files[j].taken
            is None ==> files[i].taken->0 >= files[j].modified,
        is_sorted(files, SortOrder::ExifDate, false) && files[i].taken is None && files[j].taken
            is Some ==> files[i].modified <= files[j].taken->0,
        is_sorted(files, SortOrder::ExifDate, true) && files[i].taken is None && files[j].taken
            is Some ==> files[i].modified >= files[j].taken->0,
{
}

/// Sorted by the date that the files were added, the earlier date comes
/// first, or last when descending. Where the disk does not keep that date a
/// file stands where its date modified puts it, and files of the same date go
/// by their names.
pub proof fn sorted_by_date_added(files: Seq<FileInfo>, i: int, j: int)
    requires
        0 <= i < j < files.len(),
    ensures
        is_sorted(files, SortOrder::Added, false) && files[i].added is Some && files[j].added
            is Some ==> files[i].added->0 < files[j].added->0 || (files[i].added->0
            == files[j].added->0 && by_name_and_path(files[i], files[j])),
        is_sorted(files, SortOrder::Added, true) && files[i].added is Some && files[j].added
            is Some ==> files[i].added->0 > files[j].added->0 || (files[i].added->0
            == files[j].added->0 && by_name_and_path(files[j], files[i])),
        is_sorted(files, SortOrder::Added, false) && files[i].added is None && files[j].added
            is None ==> files[i].modified < files[j].modified || (files[i].modified
            == files[j].modified && by_name_and_path(files[i], files[j])),
        is_sorted(files, SortOrder::Added, true) && files[i].added is None && files[j].added
            is None ==> files[i].modified > files[j].modified || (files[i].modified
            == files[j].modified && by_name_and_path(files[j], files[i])),
        is_sorted(files, SortOrder::Added, false) && files[i].added is Some && files[j].added
            is None ==> files[i].added->0 <= files[j].modified,
        is_sorted(files, SortOrder::Added, true) && files[i].added is Some && files[j].added
            is None ==> files[i].added->0 >= files[j].modified,
        is_sorted(files, SortOrder::Added, false) && files[i].added is None && files[j].added
            is Some ==> files[i].modified <= files[j].added->0,
        is_sorted(files, SortOrder::Added, true) && files[i].added is None && files[j].added
            is Some ==> files[i].modified >= files[j].added->0,
{
}

/// Whether natural comparison of their file names puts a file before another
/// or, where the names are the same, that of their whole paths.
pub open spec fn by_name_and_path(a: FileInfo, b: FileInfo) -> bool {
    let x = match file_name(a.path@) {
        Some(name) => name,
        None => Seq::empty(),
    };
    let y = match file_name(b.path@) {
        Some(name) => name,
        None => Seq::empty(),
    };
    if x == y {
        natural_rank(a.path@, b.path@) <= 0
    } else {
        natural_rank(x, y) <= 0
    }
}

/// Sorted by name, files go by natural comparison of their file names and,
/// where those are the same, of their whole paths. Sorted by path, only the
/// whole paths count. Descending turns both round.
pub proof fn sorted_by_name_or_path(files: Seq<FileInfo>, i: int, j: int)
    requires
        0 <= i < j < files.len(),
    ensures
        is_sorted(files, SortOrder::Path, false) ==> natural_rank(files[i].path@, files[j].path@)
            <= 0,
        is_sorted(files, SortOrder::Path, true) ==> natural_rank(files[j].path@, files[i].path@)
            <= 0,
        is_sorted(files, SortOrder::Name, false) && file_name(files[i].path@) is Some && file_name(
            files[j].path@,
        ) is Some && file_name(files[i].path@) != file_name(files[j].path@) ==> natural_rank(
            file_name(files[i].path@)->0,
            file_name(files[j].path@)->0,
        ) <= 0,
        is_sorted(files, SortOrder::Name, true) && file_name(files[i].path@) is Some && file_name(
            files[j].path@,
        ) is Some && file_name(files[i].path@) != file_name(files[j].path@) ==> natural_rank(
            file_name(files[j].path@)->0,
            file_name(files[i].path@)->0,
        ) <= 0,
        is_sorted(files, SortOrder::Name, false) && file_name(files[i].path@) == file_name(
            files[j].path@,
        ) ==> natural_rank(files[i].path@, files[j].path@) <= 0,
        is_sorted(files, SortOrder::Name, true) && file_name(files[i].path@) == file_name(
            files[j].path@,
        ) ==> natural_rank(files[j].path@, files[i].path@) <= 0,
{
}

/// What a file sorts behind, it goes behind whatever else is in the list: how
/// two files compare does not depend on the direction but for its sign.
pub proof fn descending_turns_round(a: FileInfo, b: FileInfo, order: SortOrder)
    ensures
        sort_rank(a, b, order, true) == sort_rank(b, a, order, false),
{
}

/// Files whose names and paths hold no number of twenty digits can always be
/// put in order.
pub proof fn short_numbers_can_be_sorted(files: Seq<FileInfo>, order: SortOrder)
    requires
        forall|i: int, k: int|
            #![trigger lexical_form(files[i].path@)[k]]
            0 <= i < files.len() && 0 <= k <= lexical_form(files[i].path@).len() - 20 ==> exists|
                m: int,
            |
                k <= m < k + 20 && !('0' <= #[trigger] lexical_form(files[i].path@)[m] && lexical_form(
                    files[i].path@,
                )[m] <= '9'),
        forall|i: int, k: int|
            #![trigger lexical_form(order_name(files[i].path@))[k]]
            0 <= i < files.len() && 0 <= k <= lexical_form(order_name(files[i].path@)).len() - 20
                ==> exists|m: int|
                k <= m < k + 20 && !('0' <= #[trigger] lexical_form(order_name(files[i].path@))[m]
                    && lexical_form(order_name(files[i].path@))[m] <= '9'),
    ensures
        all_comparable(files, order),
{
    assert forall|i: int| 0 <= i < files.len() implies short_numbers(
        lexical_form((#[trigger] files[i]).path@),
    ) && short_numbers(lexical_form(order_name(files[i].path@))) by {
        let whole = lexical_form(files[i].path@);
        let name = lexical_form(order_name(files[i].path@));
        assert forall|k: int| !#[trigger] long_number_at(whole, k) by {
            if 0 <= k <= whole.len() - 20 {
                let first = lexical_form(files[i].path@)[k];
                let m = choose|m: int|
                    k <= m < k + 20 && !('0' <= #[trigger] lexical_form(files[i].path@)[m]
                        && lexical_form(files[i].path@)[m] <= '9');
                assert(!is_digit(whole[m]));
            }
        }
        assert forall|k: int| !#[trigger] long_number_at(name, k) by {
            if 0 <= k <= name.len() - 20 {
                let first = lexical_form(order_name(files[i].path@))[k];
                let m = choose|m: int|
                    k <= m < k + 20 && !('0' <= #[trigger] lexical_form(
                        order_name(files[i].path@),
                    )[m] && lexical_form(order_name(files[i].path@))[m] <= '9');
                assert(!is_digit(name[m]));
            }
        }
    }
    assert forall|i: int, j: int|
        0 <= i < files.len() && 0 <= j < files.len() && i != j implies infos_comparable(
        #[trigger] files[i],
        #[trigger] files[j],
        order,
    ) by {
        short_numbers_compare(lexical_form(files[i].path@), lexical_form(files[j].path@));
        short_numbers_compare(
            lexical_form(order_name(files[i].path@)),
            lexical_form(order_name(files[j].path@)),
        );
    }
}

/// Where a sort keeps equal files in their order, the files of one path come
/// out of a sort by name or by path as they went in, and those of one path and
/// size out of a sort by size.
pub proof fn files_of_one_path_keep_their_order(
    before: Seq<FileInfo>,
    after: Seq<FileInfo>,
    info: FileInfo,
)
    ensures
        keeps_equals(before, after, SortOrder::Name) || keeps_equals(before, after, SortOrder::Path)
            ==> after.filter(|f: FileInfo| f.path@ == info.path@) == before.filter(
            |f: FileInfo| f.path@ == info.path@,
        ),
        keeps_equals(before, after, SortOrder::Size) ==> after.filter(
            |f: FileInfo| f.path@ == info.path@ && f.size == info.size,
        ) == before.filter(|f: FileInfo| f.path@ == info.path@ && f.size == info.size),
{
    let same = |f: FileInfo| f.path@ == info.path@;
    let sized = |f: FileInfo| f.path@ == info.path@ && f.size == info.size;
    assert((|f: FileInfo| equal_in(f, info, SortOrder::Name)) =~= same);
    assert((|f: FileInfo| equal_in(f, info, SortOrder::Path)) =~= same);
    assert((|f: FileInfo| equal_in(f, info, SortOrder::Size)) =~= sized);
    assert(equals_of(after, info, SortOrder::Name) == after.filter(same));
    assert(equals_of(before, info, SortOrder::Name) == before.filter(same));
    assert(equals_of(after, info, SortOrder::Path) == after.filter(same));
    assert(equals_of(before, info, SortOrder::Path) == before.filter(same));
    assert(equals_of(after, info, SortOrder::Size) == after.filter(sized));
    assert(equals_of(before, info, SortOrder::Size) == before.filter(sized));
}

/// Two texts that differ in a character, before any number of both, can be
/// compared.
pub proof fn texts_that_differ_early_compare(front: Seq<char>, a: Seq<char>, b: Seq<char>)
    requires
        forall|i: int| 0 <= i < front.len() ==> !('0' <= #[trigger] front[i] && front[i] <= '9'),
        a.len() == 0 || b.len() == 0 || (a[0] != b[0] && !('0' <= a[0] && a[0] <= '9')),
    ensures
        forms_comparable(front + a, front + b),
    decreases front.len(),
{
    let x = front + a;
    let y = front + b;
    if front.len() == 0 {
        assert(x =~= a && y =~= b);
    } else {
        let rest = front.skip(1);
        assert forall|i: int| 0 <= i < rest.len() implies !('0' <= #[trigger] rest[i] && rest[i]
            <= '9') by {
            assert(rest[i] == front[i + 1]);
        }
        texts_that_differ_early_compare(rest, a, b);
        assert(x[0] == front[0] && y[0] == front[0]);
        assert(x.skip(1) =~= rest + a);
        assert(y.skip(1) =~= rest + b);
    }
}

} // verus!
