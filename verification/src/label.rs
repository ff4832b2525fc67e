//! The order of prerelease labels.
//!
//! A label is a list of pieces with dots between them, as in `rc.1`. Labels are
//! compared piece by piece: pieces of nothing but digits by the numbers they write,
//! such a piece below any other, and other pieces in the order of their characters.
//! Where one label ends and all its pieces are those of the other, the label with
//! more pieces is the later one.

use crate::text::{
    all_digits, decimal_value, find_char, first_index, is_all_digits, lemma_digits_of_one_length,
    lemma_first_index, lemma_text_precedes_is_strict, lemma_text_precedes_is_total,
    lemma_text_precedes_is_transitive, lemma_zero_padded, pad_with_zeros, same_text, text_less,
    text_precedes,
};
use vstd::prelude::*;

verus! {

/// Whether the piece `a` ranks below the piece `b`.
///
/// Two pieces of digits rank by the numbers they write, and where they write the
/// same number, as `1` and `01` do, by their characters. A piece of digits ranks
/// below any other piece. Two other pieces rank by their characters. An empty
/// piece counts as digits that write 0.
pub open spec fn piece_precedes(a: Seq<char>, b: Seq<char>) -> bool {
    if all_digits(a) && all_digits(b) {
        decimal_value(a) < decimal_value(b) || (decimal_value(a) == decimal_value(b)
            && text_precedes(a, b))
    } else if all_digits(a) {
        true
    } else if all_digits(b) {
        false
    } else {
        text_precedes(a, b)
    }
}

/// The first piece of a label: what precedes its first dot.
pub open spec fn first_piece(label: Seq<char>) -> Seq<char> {
    label.subrange(0, first_index(label, '.'))
}

/// What follows the first dot of a label, where it has one.
pub open spec fn later_pieces(label: Seq<char>) -> Option<Seq<char>> {
    if first_index(label, '.') < label.len() {
        Some(label.subrange(first_index(label, '.') + 1, label.len() as int))
    } else {
        None
    }
}

/// Whether the label `a` ranks below the label `b`: their first pieces decide, and
/// where these are the same, what follows them; a label that ends there ranks
/// below one that goes on.
pub open spec fn label_precedes(a: Seq<char>, b: Seq<char>) -> bool
    decreases a.len(),
{
    if piece_precedes(first_piece(a), first_piece(b)) {
        true
    } else if first_piece(a) != first_piece(b) {
        false
    } else {
        match (later_pieces(a), later_pieces(b)) {
            (Some(after_a), Some(after_b)) => {
                proof {
                    lemma_first_index(a, '.');
                }
                label_precedes(after_a, after_b)
            },
            (None, Some(_)) => true,
            _ => false,
        }
    }
}

/// No piece ranks below itself.
pub proof fn lemma_piece_precedes_is_strict(a: Seq<char>)
    ensures
        !piece_precedes(a, a),
{
    lemma_text_precedes_is_strict(a);
}

/// If `a` ranks below `b`, and `b` below `c`, then `a` ranks below `c`.
pub proof fn lemma_piece_precedes_is_transitive(a: Seq<char>, b: Seq<char>, c: Seq<char>)
    requires
        piece_precedes(a, b),
        piece_precedes(b, c),
    ensures
        piece_precedes(a, c),
{
    if text_precedes(a, b) && text_precedes(b, c) {
        lemma_text_precedes_is_transitive(a, b, c);
    }
}

/// Of two different pieces one ranks below the other.
pub proof fn lemma_piece_precedes_is_total(a: Seq<char>, b: Seq<char>)
    requires
        a != b,
    ensures
        piece_precedes(a, b) || piece_precedes(b, a),
{
    lemma_text_precedes_is_total(a, b);
}

/// A label is its first piece, and where a dot follows it, that dot and the rest.
pub proof fn lemma_label_of_pieces(label: Seq<char>)
    ensures
        label == first_piece(label) + match later_pieces(label) {
            Some(after) => seq!['.'] + after,
            None => Seq::empty(),
        },
        later_pieces(label) matches Some(after) ==> after.len() < label.len(),
{
    lemma_first_index(label, '.');
}

/// No label ranks below itself.
pub proof fn lemma_label_precedes_is_strict(a: Seq<char>)
    ensures
        !label_precedes(a, a),
    decreases a.len(),
{
    lemma_piece_precedes_is_strict(first_piece(a));
    lemma_label_of_pieces(a);
    match later_pieces(a) {
        Some(after) => {
            lemma_label_precedes_is_strict(after);
        },
        None => {},
    }
}

/// If `a` ranks below `b`, and `b` below `c`, then `a` ranks below `c`.
pub proof fn lemma_label_precedes_is_transitive(a: Seq<char>, b: Seq<char>, c: Seq<char>)
    requires
        label_precedes(a, b),
        label_precedes(b, c),
    ensures
        label_precedes(a, c),
    decreases a.len(),
{
    let (pa, pb, pc) = (first_piece(a), first_piece(b), first_piece(c));
    lemma_label_of_pieces(a);
    if piece_precedes(pa, pb) && piece_precedes(pb, pc) {
        lemma_piece_precedes_is_transitive(pa, pb, pc);
    } else if pa == pb && pb == pc {
        match (later_pieces(a), later_pieces(b), later_pieces(c)) {
            (Some(after_a), Some(after_b), Some(after_c)) => {
                lemma_label_precedes_is_transitive(after_a, after_b, after_c);
            },
            _ => {},
        }
    }
}

/// Of two different labels one ranks below the other.
pub proof fn lemma_label_precedes_is_total(a: Seq<char>, b: Seq<char>)
    requires
        a != b,
    ensures
        label_precedes(a, b) || label_precedes(b, a),
    decreases a.len(),
{
    lemma_label_of_pieces(a);
    lemma_label_of_pieces(b);
    if first_piece(a) != first_piece(b) {
        lemma_piece_precedes_is_total(first_piece(a), first_piece(b));
    } else {
        match (later_pieces(a), later_pieces(b)) {
            (Some(after_a), Some(after_b)) => {
                lemma_label_precedes_is_total(after_a, after_b);
            },
            _ => {},
        }
    }
}

/// Whether the digits `a` write a lower number than the digits `b`, however long
/// the two are.
fn number_less(a: &str, b: &str) -> (less: bool)
    requires
        all_digits(a@),
        all_digits(b@),
    ensures
        less == (decimal_value(a@) < decimal_value(b@)),
{
    let n = a.unicode_len();
    let m = b.unicode_len();
    let width = if n < m {
        m
    } else {
        n
    };
    let wide_a = pad_with_zeros(a, width);
    let wide_b = pad_with_zeros(b, width);
    proof {
        lemma_zero_padded(a@, width as nat);
        lemma_zero_padded(b@, width as nat);
        lemma_digits_of_one_length(wide_a@, wide_b@);
    }
    text_less(wide_a.as_str(), wide_b.as_str())
}

/// Whether the piece `a` ranks below the piece `b`.
pub fn piece_less(a: &str, b: &str) -> (less: bool)
    ensures
        less == piece_precedes(a@, b@),
{
    let digits_a = is_all_digits(a);
    let digits_b = is_all_digits(b);
    if digits_a && digits_b {
        if number_less(a, b) {
            true
        } else if number_less(b, a) {
            false
        } else {
            text_less(a, b)
        }
    } else if digits_a {
        true
    } else if digits_b {
        false
    } else {
        text_less(a, b)
    }
}

/// Whether the label `a` ranks below the label `b`.
pub fn label_less(a: &str, b: &str) -> (less: bool)
    ensures
        less == label_precedes(a@, b@),
    decreases a@.len(),
{
    let n = a.unicode_len();
    let m = b.unicode_len();
    let i = find_char(a, '.');
    let j = find_char(b, '.');
    proof {
        lemma_first_index(a@, '.');
        lemma_first_index(b@, '.');
    }
    let piece_a = a.substring_char(0, i);
    let piece_b = b.substring_char(0, j);
    if piece_less(piece_a, piece_b) {
        true
    } else if !same_text(piece_a, piece_b) {
        false
    } else if i < n && j < m {
        label_less(a.substring_char(i + 1, n), b.substring_char(j + 1, m))
    } else {
        i == n && j < m
    }
}

} // verus!
