//! Natural ("human") ordering of file names: runs of digits compare by
//! their numeric value, everything else byte by byte.

use std::cmp::Ordering;
use vstd::prelude::*;
use vstd::slice::slice_subrange;
use vstd::utf8::encode_utf8;

use crate::path_model::{path_file_name, spec_path_file_name, spec_to_lowercase, to_lowercase};

verus! {

/// The outcome of comparing two values.
#[derive(Debug, Clone, Copy, PartialEq, Eq, Structural)]
pub enum Order {
    Less,
    Equal,
    Greater,
}

/// The opposite outcome, as seen from the other side of the comparison.
pub open spec fn reverse(order: Order) -> Order {
    match order {
        Order::Less => Order::Greater,
        Order::Equal => Order::Equal,
        Order::Greater => Order::Less,
    }
}

/// The order of two integers.
pub open spec fn order_of(left: int, right: int) -> Order {
    if left < right {
        Order::Less
    } else if left == right {
        Order::Equal
    } else {
        Order::Greater
    }
}

/// `first`, or `second` when `first` is a tie.
pub open spec fn then(first: Order, second: Order) -> Order {
    if first == Order::Equal { second } else { first }
}

/// The std representation of an outcome.
pub open spec fn as_std(order: Order) -> Ordering {
    match order {
        Order::Less => Ordering::Less,
        Order::Equal => Ordering::Equal,
        Order::Greater => Ordering::Greater,
    }
}

/// Converts an outcome into its std representation.
pub fn to_std(order: Order) -> (std_order: Ordering)
    ensures
        std_order == as_std(order),
{
    match order {
        Order::Less => Ordering::Less,
        Order::Equal => Ordering::Equal,
        Order::Greater => Ordering::Greater,
    }
}

/// Whether a byte is an ASCII digit.
pub open spec fn is_digit(byte: u8) -> bool {
    48 <= byte <= 57
}

/// Lexicographic order of byte strings; a proper prefix comes first.
pub open spec fn lexicographic(left: Seq<u8>, right: Seq<u8>) -> Order
    decreases left.len(),
{
    if left.len() == 0 || right.len() == 0 {
        order_of(left.len() as int, right.len() as int)
    } else if left[0] != right[0] {
        order_of(left[0] as int, right[0] as int)
    } else {
        lexicographic(left.drop_first(), right.drop_first())
    }
}

/// A run of digits without its leading zeroes; an all-zero run keeps its last zero.
pub open spec fn significant_digits(digits: Seq<u8>) -> Seq<u8>
    decreases digits.len(),
{
    if digits.len() > 1 && digits[0] == 48 {
        significant_digits(digits.drop_first())
    } else {
        digits
    }
}

/// Order of two digit runs: by numeric value (number of significant digits,
/// then the digits), then the run with fewer leading zeroes first.
pub open spec fn numeric_order(left: Seq<u8>, right: Seq<u8>) -> Order {
    let l = significant_digits(left);
    let r = significant_digits(right);
    then(
        order_of(l.len() as int, r.len() as int),
        then(lexicographic(l, r), order_of(left.len() as int, right.len() as int)),
    )
}

/// The length of the run of digits a byte string starts with.
pub open spec fn digit_run_len(bytes: Seq<u8>) -> nat
    decreases bytes.len(),
{
    if bytes.len() > 0 && is_digit(bytes[0]) {
        1 + digit_run_len(bytes.drop_first())
    } else {
        0
    }
}

pub proof fn lemma_digit_run_len_bounded(bytes: Seq<u8>)
    ensures
        digit_run_len(bytes) <= bytes.len(),
        bytes.len() > 0 && is_digit(bytes[0]) ==> digit_run_len(bytes) >= 1,
        forall|i: int| 0 <= i < digit_run_len(bytes) ==> is_digit(#[trigger] bytes[i]),
        digit_run_len(bytes) < bytes.len() ==> !is_digit(bytes[digit_run_len(bytes) as int]),
    decreases bytes.len(),
{
    if bytes.len() > 0 && is_digit(bytes[0]) {
        lemma_digit_run_len_bounded(bytes.drop_first());
        assert forall|i: int| 0 <= i < digit_run_len(bytes) implies is_digit(#[trigger] bytes[i]) by {
            if i > 0 {
                assert(bytes[i] == bytes.drop_first()[i - 1]);
            }
        }
    }
}

/// Natural order of two byte strings: where both continue with a digit the
/// two digit runs compare numerically, elsewhere the bytes compare; when one
/// string ends, the shorter remainder comes first.
pub open spec fn natural_order(left: Seq<u8>, right: Seq<u8>) -> Order
    decreases left.len(),
{
    if left.len() == 0 || right.len() == 0 {
        order_of(left.len() as int, right.len() as int)
    } else if is_digit(left[0]) && is_digit(right[0]) {
        let n = digit_run_len(left);
        let m = digit_run_len(right);
        let runs = numeric_order(left.take(n as int), right.take(m as int));
        proof {
            lemma_digit_run_len_bounded(left);
        }
        if runs != Order::Equal {
            runs
        } else {
            natural_order(left.skip(n as int), right.skip(m as int))
        }
    } else if left[0] != right[0] {
        order_of(left[0] as int, right[0] as int)
    } else {
        natural_order(left.drop_first(), right.drop_first())
    }
}

/// The end of the run of ASCII digits that starts at `start`.
pub fn digit_run_end(value: &[u8], start: usize) -> (end: usize)
    requires
        start <= value@.len(),
    ensures
        end == start + digit_run_len(value@.skip(start as int)),
        end <= value@.len(),
{
    let mut end = start;
    while end < value.len() && 48 <= value[end] && value[end] <= 57
        invariant
            start <= end <= value@.len(),
            digit_run_len(value@.skip(start as int)) == (end - start) + digit_run_len(value@.skip(end as int)),
        decreases value@.len() - end,
    {
        assert(value@.skip(end as int).drop_first() =~= value@.skip(end + 1));
        end += 1;
    }
    end
}

/// The digits of a run without its leading zeroes (an all-zero run keeps one zero).
pub fn trim_leading_zeroes(value: &[u8]) -> (significant: &[u8])
    ensures
        significant@ == significant_digits(value@),
{
    let mut first: usize = 0;
    assert(value@.skip(0) =~= value@);
    while first < value.len() && first + 1 < value.len() && value[first] == 48
        invariant
            first <= value@.len(),
            value@.len() == 0 ==> first == 0,
            significant_digits(value@) == significant_digits(value@.skip(first as int)),
        decreases value@.len() - first,
    {
        assert(value@.skip(first as int).drop_first() =~= value@.skip(first + 1));
        first += 1;
    }
    assert(value@.subrange(first as int, value@.len() as int) =~= value@.skip(first as int));
    slice_subrange(value, first, value.len())
}

/// Lexicographic comparison of two byte strings.
pub fn compare_bytes(left: &[u8], right: &[u8]) -> (order: Order)
    ensures
        order == lexicographic(left@, right@),
{
    let mut i: usize = 0;
    assert(left@.skip(0) =~= left@ && right@.skip(0) =~= right@);
    while i < left.len() && i < right.len()
        invariant
            i <= left@.len(),
            i <= right@.len(),
            lexicographic(left@, right@) == lexicographic(left@.skip(i as int), right@.skip(i as int)),
        decreases left@.len() - i,
    {
        if left[i] != right[i] {
            return if left[i] < right[i] { Order::Less } else { Order::Greater };
        }
        assert(left@.skip(i as int).drop_first() =~= left@.skip(i + 1));
        assert(right@.skip(i as int).drop_first() =~= right@.skip(i + 1));
        i += 1;
    }
    compare_lengths(left.len(), right.len())
}

/// The order of two lengths.
pub fn compare_lengths(left: usize, right: usize) -> (order: Order)
    ensures
        order == order_of(left as int, right as int),
{
    if left < right {
        Order::Less
    } else if left == right {
        Order::Equal
    } else {
        Order::Greater
    }
}

/// Numeric comparison of two digit runs.
pub fn compare_digit_runs(left: &[u8], right: &[u8]) -> (order: Order)
    ensures
        order == numeric_order(left@, right@),
{
    let left_significant = trim_leading_zeroes(left);
    let right_significant = trim_leading_zeroes(right);
    let by_length = compare_lengths(left_significant.len(), right_significant.len());
    if by_length != Order::Equal {
        return by_length;
    }
    let by_digits = compare_bytes(left_significant, right_significant);
    if by_digits != Order::Equal {
        return by_digits;
    }
    compare_lengths(left.len(), right.len())
}

/// Natural comparison of two byte strings.
pub fn compare_natural(left: &[u8], right: &[u8]) -> (order: Order)
    ensures
        order == natural_order(left@, right@),
{
    let mut i: usize = 0;
    assert(left@.skip(0) =~= left@ && right@.skip(0) =~= right@);
    while i < left.len() && i < right.len()
        invariant
            i <= left@.len(),
            i <= right@.len(),
            natural_order(left@, right@) == natural_order(left@.skip(i as int), right@.skip(i as int)),
        decreases left@.len() - i,
    {
        let ghost l = left@.skip(i as int);
        let ghost r = right@.skip(i as int);
        if 48 <= left[i] && left[i] <= 57 && 48 <= right[i] && right[i] <= 57 {
            let left_end = digit_run_end(left, i);
            let right_end = digit_run_end(right, i);
            let left_run = slice_subrange(left, i, left_end);
            let right_run = slice_subrange(right, i, right_end);
            proof {
                lemma_digit_run_len_bounded(l);
                lemma_digit_run_len_bounded(r);
                assert(left_run@ =~= l.take(digit_run_len(l) as int));
                assert(right_run@ =~= r.take(digit_run_len(r) as int));
            }
            let runs = compare_digit_runs(left_run, right_run);
            if runs != Order::Equal {
                return runs;
            }
            proof {
                assert(l.skip(digit_run_len(l) as int) =~= left@.skip(left_end as int));
                assert(r.skip(digit_run_len(r) as int) =~= right@.skip(right_end as int));
            }
            i = left_end;
        } else {
            if left[i] != right[i] {
                return if left[i] < right[i] { Order::Less } else { Order::Greater };
            }
            assert(l.drop_first() =~= left@.skip(i + 1));
            assert(r.drop_first() =~= right@.skip(i + 1));
            i += 1;
        }
    }
    compare_lengths(left.len() - i, right.len() - i)
}

/// Natural comparison of two byte strings (see `natural_order`).
pub fn natural_cmp(left: &[u8], right: &[u8]) -> (ordering: Ordering)
    ensures
        ordering == as_std(natural_order(left@, right@)),
{
    to_std(compare_natural(left, right))
}

/// Numeric comparison of two digit runs (see `numeric_order`).
pub fn numeric_run_cmp(left: &[u8], right: &[u8]) -> (ordering: Ordering)
    ensures
        ordering == as_std(numeric_order(left@, right@)),
{
    to_std(compare_digit_runs(left, right))
}


/// The part of a path that file ordering looks at: its file name (or the
/// whole path where it has none), lowercased, as UTF-8 bytes.
pub open spec fn natural_key(path: Seq<char>) -> Seq<u8> {
    let name = match spec_path_file_name(path) {
        Some(name) => name,
        None => path,
    };
    encode_utf8(spec_to_lowercase(name))
}

/// Computes `natural_key` of a path as a string.
fn natural_key_text(path: &str) -> (key: String)
    ensures
        encode_utf8(key@) == natural_key(path@),
{
    match path_file_name(path) {
        Some(name) => to_lowercase(name.as_str()),
        None => to_lowercase(path),
    }
}

/// Natural, case-insensitive comparison of the file names of two paths.
pub fn natural_path_cmp(left: &str, right: &str) -> (ordering: Ordering)
    ensures
        ordering == as_std(natural_order(natural_key(left@), natural_key(right@))),
{
    let left_key = natural_key_text(left);
    let right_key = natural_key_text(right);
    natural_cmp(left_key.as_str().as_bytes(), right_key.as_str().as_bytes())
}

/// The order of a folder listing: natural order of the file names, ties
/// broken by the bytes of the whole path.
#[verifier::opaque]
pub open spec fn scan_order(left: Seq<char>, right: Seq<char>) -> Order {
    then(
        natural_order(natural_key(left), natural_key(right)),
        lexicographic(encode_utf8(left), encode_utf8(right)),
    )
}

/// Compares two paths in folder-listing order.
pub fn compare_scan_order(left: &str, right: &str) -> (order: Order)
    ensures
        order == scan_order(left@, right@),
{
    reveal(scan_order);
    let left_key = natural_key_text(left);
    let right_key = natural_key_text(right);
    let by_name = compare_natural(left_key.as_str().as_bytes(), right_key.as_str().as_bytes());
    if by_name != Order::Equal {
        return by_name;
    }
    compare_bytes(left.as_bytes(), right.as_bytes())
}

/// The text of each path.
pub open spec fn views(paths: Seq<String>) -> Seq<Seq<char>> {
    paths.map_values(|path: String| path@)
}

/// Adjacent entries are in non-decreasing folder-listing order.
pub open spec fn sorted_in_scan_order(paths: Seq<Seq<char>>) -> bool {
    forall|i: int| 0 <= i < paths.len() - 1 ==> #[trigger] scan_order(paths[i], paths[i + 1]) != Order::Greater
}

proof fn lemma_insert_keeps_sorted(before: Seq<Seq<char>>, j: int, path: Seq<char>)
    requires
        sorted_in_scan_order(before),
        0 <= j <= before.len(),
        j > 0 ==> scan_order(path, before[j - 1]) != Order::Less,
        j < before.len() ==> scan_order(path, before[j]) == Order::Less,
    ensures
        sorted_in_scan_order(before.insert(j, path)),
{
    let after = before.insert(j, path);
    if j > 0 {
        lemma_scan_order_antisymmetric(path, before[j - 1]);
    }
    assert forall|k: int| 0 <= k < after.len() - 1
        implies #[trigger] scan_order(after[k], after[k + 1]) != Order::Greater by {
        if k + 1 < j {
            assert(after[k] == before[k] && after[k + 1] == before[k + 1]);
            assert(scan_order(before[k], before[k + 1]) != Order::Greater);
        } else if k + 1 == j {
            assert(after[k] == before[j - 1] && after[k + 1] == path);
        } else if k == j {
            assert(after[k] == path && after[k + 1] == before[j]);
        } else {
            assert(after[k] == before[k - 1] && after[k + 1] == before[k]);
            let m = k - 1;
            assert(scan_order(before[m], before[m + 1]) != Order::Greater);
            assert(before[m + 1] == before[k]);
        }
    }
}

/// Sorts paths into folder-listing order (a stable insertion sort).
pub fn sort_in_scan_order(paths: Vec<String>) -> (sorted: Vec<String>)
    ensures
        views(sorted@).to_multiset() == views(paths@).to_multiset(),
        sorted_in_scan_order(views(sorted@)),
{
    let mut sorted: Vec<String> = Vec::new();
    let mut i: usize = 0;
    proof {
        assert(views(sorted@) =~= views(paths@).take(0));
    }
    while i < paths.len()
        invariant
            i <= paths.len(),
            views(sorted@).to_multiset() == views(paths@).take(i as int).to_multiset(),
            sorted_in_scan_order(views(sorted@)),
        decreases paths.len() - i,
    {
        let path = paths[i].clone();
        let mut j: usize = 0;
        while j < sorted.len() && compare_scan_order(path.as_str(), sorted[j].as_str()) != Order::Less
            invariant
                j <= sorted.len(),
                forall|k: int| 0 <= k < j ==> scan_order(path@, #[trigger] views(sorted@)[k]) != Order::Less,
            decreases sorted.len() - j,
        {
            j += 1;
        }
        let ghost before = views(sorted@);
        sorted.insert(j, path);
        proof {
            assert(views(sorted@) =~= before.insert(j as int, path@));
            lemma_insert_keeps_sorted(before, j as int, path@);
            vstd::seq_lib::to_multiset_insert(before, j as int, path@);
            assert(views(paths@).take(i + 1) =~= views(paths@).take(i as int).push(path@));
            vstd::seq_lib::to_multiset_build(views(paths@).take(i as int), path@);
        }
        i += 1;
    }
    assert(views(paths@).take(paths.len() as int) =~= views(paths@));
    sorted
}

/// Lexicographic order is antisymmetric.
pub proof fn lemma_lexicographic_antisymmetric(left: Seq<u8>, right: Seq<u8>)
    ensures
        lexicographic(left, right) == reverse(lexicographic(right, left)),
    decreases left.len(),
{
    if left.len() > 0 && right.len() > 0 && left[0] == right[0] {
        lemma_lexicographic_antisymmetric(left.drop_first(), right.drop_first());
    }
}

/// Numeric order of digit runs is antisymmetric.
pub proof fn lemma_numeric_order_antisymmetric(left: Seq<u8>, right: Seq<u8>)
    ensures
        numeric_order(left, right) == reverse(numeric_order(right, left)),
{
    lemma_lexicographic_antisymmetric(significant_digits(left), significant_digits(right));
}

/// Natural order is antisymmetric: swapping the operands reverses the outcome.
pub proof fn lemma_natural_order_antisymmetric(left: Seq<u8>, right: Seq<u8>)
    ensures
        natural_order(left, right) == reverse(natural_order(right, left)),
    decreases left.len(),
{
    if left.len() == 0 || right.len() == 0 {
    } else if is_digit(left[0]) && is_digit(right[0]) {
        let n = digit_run_len(left);
        let m = digit_run_len(right);
        lemma_digit_run_len_bounded(left);
        lemma_digit_run_len_bounded(right);
        lemma_numeric_order_antisymmetric(left.take(n as int), right.take(m as int));
        if numeric_order(left.take(n as int), right.take(m as int)) == Order::Equal {
            lemma_natural_order_antisymmetric(left.skip(n as int), right.skip(m as int));
        }
    } else if left[0] != right[0] {
    } else {
        lemma_natural_order_antisymmetric(left.drop_first(), right.drop_first());
    }
}

/// Folder-listing order is antisymmetric.
pub proof fn lemma_scan_order_antisymmetric(left: Seq<char>, right: Seq<char>)
    ensures
        scan_order(left, right) == reverse(scan_order(right, left)),
{
    reveal(scan_order);
    lemma_natural_order_antisymmetric(natural_key(left), natural_key(right));
    lemma_lexicographic_antisymmetric(encode_utf8(left), encode_utf8(right));
}

/// Every byte string is level with itself.
pub proof fn lemma_lexicographic_reflexive(bytes: Seq<u8>)
    ensures
        lexicographic(bytes, bytes) == Order::Equal,
    decreases bytes.len(),
{
    if bytes.len() > 0 {
        lemma_lexicographic_reflexive(bytes.drop_first());
    }
}

/// Byte strings are level only when they are equal.
pub proof fn lemma_lexicographic_equal(left: Seq<u8>, right: Seq<u8>)
    requires
        lexicographic(left, right) == Order::Equal,
    ensures
        left == right,
    decreases left.len(),
{
    if left.len() == 0 || right.len() == 0 {
        assert(left =~= right);
    } else {
        lemma_lexicographic_equal(left.drop_first(), right.drop_first());
        assert(left =~= seq![left[0]] + left.drop_first());
        assert(right =~= seq![right[0]] + right.drop_first());
    }
}

/// Lexicographic order is transitive.
pub proof fn lemma_lexicographic_transitive(a: Seq<u8>, b: Seq<u8>, c: Seq<u8>)
    requires
        lexicographic(a, b) == Order::Less,
        lexicographic(b, c) == Order::Less,
    ensures
        lexicographic(a, c) == Order::Less,
    decreases a.len(),
{
    if a.len() > 0 && b.len() > 0 && c.len() > 0 && a[0] == b[0] && b[0] == c[0] {
        lemma_lexicographic_transitive(a.drop_first(), b.drop_first(), c.drop_first());
    }
}

/// A digit run is its leading zeroes followed by its significant digits.
proof fn lemma_significant_digits_suffix(digits: Seq<u8>)
    ensures
        significant_digits(digits).len() <= digits.len(),
        significant_digits(digits) == digits.skip(digits.len() - significant_digits(digits).len()),
        forall|i: int|
            0 <= i < digits.len() - significant_digits(digits).len() ==> #[trigger] digits[i] == 48,
    decreases digits.len(),
{
    if digits.len() > 1 && digits[0] == 48 {
        let rest = digits.drop_first();
        lemma_significant_digits_suffix(rest);
        assert(rest.skip(rest.len() - significant_digits(rest).len()) =~= digits.skip(
            digits.len() - significant_digits(digits).len(),
        ));
        assert forall|i: int|
            0 <= i < digits.len() - significant_digits(digits).len() implies #[trigger] digits[i]
            == 48 by {
            if i > 0 {
                assert(digits[i] == rest[i - 1]);
            }
        }
    } else {
        assert(digits.skip(0) =~= digits);
    }
}

/// Every digit run is level with itself.
proof fn lemma_numeric_order_reflexive(digits: Seq<u8>)
    ensures
        numeric_order(digits, digits) == Order::Equal,
{
    lemma_lexicographic_reflexive(significant_digits(digits));
}

/// Digit runs are level only when they are equal.
proof fn lemma_numeric_order_equal(left: Seq<u8>, right: Seq<u8>)
    requires
        numeric_order(left, right) == Order::Equal,
    ensures
        left == right,
{
    let l = significant_digits(left);
    let r = significant_digits(right);
    lemma_lexicographic_equal(l, r);
    lemma_significant_digits_suffix(left);
    lemma_significant_digits_suffix(right);
    let zeroes = left.len() - l.len();
    assert forall|i: int| 0 <= i < left.len() implies left[i] == right[i] by {
        if i >= zeroes {
            assert(left[i] == left.skip(zeroes)[i - zeroes]);
            assert(right[i] == right.skip(zeroes)[i - zeroes]);
        }
    }
    assert(left =~= right);
}

/// Numeric order of digit runs is transitive.
proof fn lemma_numeric_order_transitive(a: Seq<u8>, b: Seq<u8>, c: Seq<u8>)
    requires
        numeric_order(a, b) == Order::Less,
        numeric_order(b, c) == Order::Less,
    ensures
        numeric_order(a, c) == Order::Less,
{
    let sa = significant_digits(a);
    let sb = significant_digits(b);
    let sc = significant_digits(c);
    if lexicographic(sa, sb) == Order::Equal {
        lemma_lexicographic_equal(sa, sb);
    }
    if lexicographic(sb, sc) == Order::Equal {
        lemma_lexicographic_equal(sb, sc);
    }
    if lexicographic(sa, sb) == Order::Less && lexicographic(sb, sc) == Order::Less {
        lemma_lexicographic_transitive(sa, sb, sc);
    }
    if sa == sc {
        lemma_lexicographic_reflexive(sa);
        if lexicographic(sa, sb) != Order::Equal {
            lemma_lexicographic_antisymmetric(sa, sb);
        }
    }
}

/// Every byte string is level with itself in natural order.
pub proof fn lemma_natural_order_reflexive(bytes: Seq<u8>)
    ensures
        natural_order(bytes, bytes) == Order::Equal,
    decreases bytes.len(),
{
    if bytes.len() == 0 {
    } else if is_digit(bytes[0]) {
        let n = digit_run_len(bytes);
        lemma_digit_run_len_bounded(bytes);
        lemma_numeric_order_reflexive(bytes.take(n as int));
        lemma_natural_order_reflexive(bytes.skip(n as int));
    } else {
        lemma_natural_order_reflexive(bytes.drop_first());
    }
}

/// Byte strings are level in natural order only when they are equal.
pub proof fn lemma_natural_order_equal(left: Seq<u8>, right: Seq<u8>)
    requires
        natural_order(left, right) == Order::Equal,
    ensures
        left == right,
    decreases left.len(),
{
    if left.len() == 0 || right.len() == 0 {
        assert(left =~= right);
    } else if is_digit(left[0]) && is_digit(right[0]) {
        let n = digit_run_len(left);
        let m = digit_run_len(right);
        lemma_digit_run_len_bounded(left);
        lemma_digit_run_len_bounded(right);
        lemma_numeric_order_equal(left.take(n as int), right.take(m as int));
        lemma_natural_order_equal(left.skip(n as int), right.skip(m as int));
        assert(left =~= left.take(n as int) + left.skip(n as int));
        assert(right =~= right.take(m as int) + right.skip(m as int));
    } else {
        lemma_natural_order_equal(left.drop_first(), right.drop_first());
        assert(left =~= seq![left[0]] + left.drop_first());
        assert(right =~= seq![right[0]] + right.drop_first());
    }
}

/// Natural order is transitive.
pub proof fn lemma_natural_order_transitive(a: Seq<u8>, b: Seq<u8>, c: Seq<u8>)
    requires
        natural_order(a, b) == Order::Less,
        natural_order(b, c) == Order::Less,
    ensures
        natural_order(a, c) == Order::Less,
    decreases a.len(),
{
    if a.len() == 0 || b.len() == 0 || c.len() == 0 {
    } else {
        let da = is_digit(a[0]);
        let db = is_digit(b[0]);
        let dc = is_digit(c[0]);
        if da && db && dc {
            let n = digit_run_len(a);
            let m = digit_run_len(b);
            let k = digit_run_len(c);
            lemma_digit_run_len_bounded(a);
            lemma_digit_run_len_bounded(b);
            lemma_digit_run_len_bounded(c);
            let ra = a.take(n as int);
            let rb = b.take(m as int);
            let rc = c.take(k as int);
            let ab = numeric_order(ra, rb);
            let bc = numeric_order(rb, rc);
            if ab == Order::Equal {
                lemma_numeric_order_equal(ra, rb);
            }
            if bc == Order::Equal {
                lemma_numeric_order_equal(rb, rc);
            }
            if ab == Order::Less && bc == Order::Less {
                lemma_numeric_order_transitive(ra, rb, rc);
            } else if ab == Order::Equal && bc == Order::Equal {
                lemma_numeric_order_reflexive(ra);
                lemma_natural_order_transitive(a.skip(n as int), b.skip(m as int), c.skip(k as int));
            }
        } else if !da && !db && !dc && a[0] == b[0] && b[0] == c[0] {
            lemma_natural_order_transitive(a.drop_first(), b.drop_first(), c.drop_first());
        }
    }
}

/// Folder-listing order is a total order: every path is level only with
/// itself, and the order is transitive. So a listing sorted pair by pair is
/// sorted throughout.
pub proof fn law_scan_order_is_a_total_order(a: Seq<char>, b: Seq<char>, c: Seq<char>)
    ensures
        scan_order(a, a) == Order::Equal,
        scan_order(a, b) == Order::Equal ==> a == b,
        scan_order(a, b) == reverse(scan_order(b, a)),
        scan_order(a, b) != Order::Greater && scan_order(b, c) != Order::Greater ==> scan_order(a, c)
            != Order::Greater,
        scan_order(a, b) == Order::Less && scan_order(b, c) != Order::Greater ==> scan_order(a, c)
            == Order::Less,
{
    reveal(scan_order);
    lemma_scan_order_antisymmetric(a, b);
    lemma_natural_order_reflexive(natural_key(a));
    lemma_lexicographic_reflexive(encode_utf8(a));
    let (ka, kb, kc) = (natural_key(a), natural_key(b), natural_key(c));
    let (ea, eb, ec) = (encode_utf8(a), encode_utf8(b), encode_utf8(c));
    if natural_order(ka, kb) == Order::Equal {
        lemma_natural_order_equal(ka, kb);
    }
    if natural_order(kb, kc) == Order::Equal {
        lemma_natural_order_equal(kb, kc);
    }
    if lexicographic(ea, eb) == Order::Equal {
        lemma_lexicographic_equal(ea, eb);
        vstd::utf8::encode_utf8_decode_utf8(a);
        vstd::utf8::encode_utf8_decode_utf8(b);
    }
    if lexicographic(eb, ec) == Order::Equal {
        lemma_lexicographic_equal(eb, ec);
    }
    if natural_order(ka, kb) == Order::Less && natural_order(kb, kc) == Order::Less {
        lemma_natural_order_transitive(ka, kb, kc);
    }
    if lexicographic(ea, eb) == Order::Less && lexicographic(eb, ec) == Order::Less {
        lemma_lexicographic_transitive(ea, eb, ec);
    }
}

/// A listing sorted pair by pair is in folder-listing order throughout:
/// no path comes after one that it should precede.
pub proof fn law_sorted_listing_is_ordered_throughout(paths: Seq<Seq<char>>)
    requires
        sorted_in_scan_order(paths),
    ensures
        forall|i: int, j: int|
            0 <= i <= j < paths.len() ==> #[trigger] scan_order(paths[i], paths[j]) != Order::Greater,
{
    assert forall|i: int, j: int| 0 <= i <= j < paths.len() implies #[trigger] scan_order(
        paths[i],
        paths[j],
    ) != Order::Greater by {
        lemma_sorted_prefix_ordered(paths, i, j);
    }
}

proof fn lemma_sorted_prefix_ordered(paths: Seq<Seq<char>>, i: int, j: int)
    requires
        sorted_in_scan_order(paths),
        0 <= i <= j < paths.len(),
    ensures
        scan_order(paths[i], paths[j]) != Order::Greater,
    decreases j - i,
{
    if i == j {
        law_scan_order_is_a_total_order(paths[i], paths[i], paths[i]);
    } else {
        lemma_sorted_prefix_ordered(paths, i, j - 1);
        let m = j - 1;
        assert(scan_order(paths[m], paths[m + 1]) != Order::Greater);
        law_scan_order_is_a_total_order(paths[i], paths[j - 1], paths[j]);
    }
}

/// Natural order is a total order on byte strings: each is level only with
/// itself, swapping the operands reverses the outcome, and it is transitive.
pub proof fn law_natural_order_is_a_total_order(a: Seq<u8>, b: Seq<u8>, c: Seq<u8>)
    ensures
        natural_order(a, a) == Order::Equal,
        natural_order(a, b) == Order::Equal ==> a == b,
        natural_order(a, b) == reverse(natural_order(b, a)),
        natural_order(a, b) == Order::Less && natural_order(b, c) == Order::Less ==> natural_order(
            a,
            c,
        ) == Order::Less,
{
    lemma_natural_order_reflexive(a);
    lemma_natural_order_antisymmetric(a, b);
    if natural_order(a, b) == Order::Equal {
        lemma_natural_order_equal(a, b);
    }
    if natural_order(a, b) == Order::Less && natural_order(b, c) == Order::Less {
        lemma_natural_order_transitive(a, b, c);
    }
}

} // verus!
