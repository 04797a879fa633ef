//! The words of the input table: the names of its columns and of the kinds of
//! record. A word is read without the blanks around it; the name of a kind
//! is read without regard to case.

use vstd::prelude::*;
use vstd::string::StringSliceAdditionalSpecFns;
use crate::transaction::TransactionKind;

verus! {

/// The blanks: space, tab, line feed, form feed and carriage return.
pub open spec fn is_blank(b: u8) -> bool {
    b == 0x20 || b == 0x09 || b == 0x0a || b == 0x0c || b == 0x0d
}

/// `b` in lower case, where it is a capital letter.
pub open spec fn lowered(b: u8) -> u8 {
    if 0x41 <= b <= 0x5a {
        (b + 0x20) as u8
    } else {
        b
    }
}

/// How many blanks `word` begins with.
pub open spec fn blanks_before(word: Seq<u8>) -> nat
    decreases word.len(),
{
    if word.len() > 0 && is_blank(word.first()) {
        1 + blanks_before(word.drop_first())
    } else {
        0
    }
}

/// How many blanks `word` ends with.
pub open spec fn blanks_after(word: Seq<u8>) -> nat
    decreases word.len(),
{
    if word.len() > 0 && is_blank(word.last()) {
        1 + blanks_after(word.drop_last())
    } else {
        0
    }
}

/// `word` without the blanks it begins and ends with.
pub open spec fn trimmed(word: Seq<u8>) -> Seq<u8> {
    if blanks_before(word) == word.len() {
        Seq::empty()
    } else {
        word.subrange(blanks_before(word) as int, word.len() - blanks_after(word))
    }
}

/// Whether `word`, put in lower case, is `name`.
pub open spec fn spells(word: Seq<u8>, name: Seq<u8>) -> bool {
    &&& word.len() == name.len()
    &&& forall|i: int| 0 <= i < word.len() ==> lowered(#[trigger] word[i]) == name[i]
}

/// The kind that `word` names: one of `deposit`, `withdrawal`, `dispute`,
/// `resolve` and `chargeback`, in any case, with blanks around it or none.
pub open spec fn kind_of_name(word: Seq<u8>) -> Option<TransactionKind> {
    if spells(trimmed(word), "deposit".spec_bytes()) {
        Some(TransactionKind::Deposit)
    } else if spells(trimmed(word), "withdrawal".spec_bytes()) {
        Some(TransactionKind::Withdrawal)
    } else if spells(trimmed(word), "dispute".spec_bytes()) {
        Some(TransactionKind::Dispute)
    } else if spells(trimmed(word), "resolve".spec_bytes()) {
        Some(TransactionKind::Resolve)
    } else if spells(trimmed(word), "chargeback".spec_bytes()) {
        Some(TransactionKind::Chargeback)
    } else {
        None
    }
}

/// The names of the columns of the input table, in their order.
pub open spec fn input_columns() -> Seq<Seq<u8>> {
    seq![
        "type".spec_bytes(),
        "client".spec_bytes(),
        "tx".spec_bytes(),
        "amount".spec_bytes(),
    ]
}

/// Whether `names` is the header of the input table: the four names of its
/// columns, in their order, with blanks around them or none.
pub open spec fn is_input_header(names: Seq<Seq<u8>>) -> bool {
    &&& names.len() == 4
    &&& forall|i: int| 0 <= i < 4 ==> trimmed(#[trigger] names[i]) == input_columns()[i]
}

/// A word that begins with `n` blanks and then ends, or goes on with a byte
/// that is no blank, begins with just `n` blanks.
proof fn lemma_blanks_before(word: Seq<u8>, n: int)
    requires
        0 <= n <= word.len(),
        forall|i: int| 0 <= i < n ==> is_blank(#[trigger] word[i]),
        n < word.len() ==> !is_blank(word[n]),
    ensures
        blanks_before(word) == n,
    decreases n,
{
    if n > 0 {
        let rest = word.drop_first();
        lemma_blanks_before(rest, n - 1);
    }
}

/// The same, for the end of a word.
proof fn lemma_blanks_after(word: Seq<u8>, n: int)
    requires
        0 <= n <= word.len(),
        forall|i: int| word.len() - n <= i < word.len() ==> is_blank(#[trigger] word[i]),
        n < word.len() ==> !is_blank(word[word.len() - n - 1]),
    ensures
        blanks_after(word) == n,
    decreases n,
{
    if n > 0 {
        let rest = word.drop_last();
        lemma_blanks_after(rest, n - 1);
    }
}

/// Whether `b` is a blank.
fn blank(b: u8) -> (r: bool)
    ensures
        r == is_blank(b),
{
    b == 0x20 || b == 0x09 || b == 0x0a || b == 0x0c || b == 0x0d
}

/// Where `word` begins and ends once the blanks around it are left out.
fn trim(word: &[u8]) -> (r: (usize, usize))
    ensures
        r.0 <= r.1 <= word.len(),
        word@.subrange(r.0 as int, r.1 as int) == trimmed(word@),
{
    let mut from: usize = 0;
    while from < word.len() && blank(word[from])
        invariant
            from <= word.len(),
            forall|i: int| 0 <= i < from ==> is_blank(#[trigger] word@[i]),
        decreases word.len() - from,
    {
        from = from + 1;
    }
    proof {
        lemma_blanks_before(word@, from as int);
    }
    if from == word.len() {
        return (from, from);
    }
    let mut to: usize = word.len();
    while to > from + 1 && blank(word[to - 1])
        invariant
            from < to <= word.len(),
            !is_blank(word@[from as int]),
            forall|i: int| to <= i < word.len() ==> is_blank(#[trigger] word@[i]),
        decreases to,
    {
        to = to - 1;
    }
    proof {
        lemma_blanks_after(word@, word.len() - to);
    }
    (from, to)
}

/// Whether the bytes of `word` from `from` to `to` are `name`, as they are
/// or, where `any_case` is set, once they are put in lower case.
fn is_name(word: &[u8], from: usize, to: usize, name: &[u8], any_case: bool) -> (r: bool)
    requires
        from <= to <= word.len(),
    ensures
        any_case ==> r == spells(word@.subrange(from as int, to as int), name@),
        !any_case ==> r == (word@.subrange(from as int, to as int) == name@),
{
    let ghost part = word@.subrange(from as int, to as int);
    if to - from != name.len() {
        return false;
    }
    let mut i: usize = 0;
    while i < name.len()
        invariant
            from <= to <= word.len(),
            to - from == name.len(),
            i <= name.len(),
            part == word@.subrange(from as int, to as int),
            forall|j: int| 0 <= j < i ==> lowered(#[trigger] part[j]) == name@[j] || !any_case,
            forall|j: int| 0 <= j < i ==> #[trigger] part[j] == name@[j] || any_case,
        decreases name.len() - i,
    {
        let b: u8 = word[from + i];
        assert(b == part[i as int]);
        let same = if any_case && 0x41 <= b && b <= 0x5a {
            b + 0x20 == name[i]
        } else {
            b == name[i]
        };
        if !same {
            return false;
        }
        i = i + 1;
    }
    assert(!any_case ==> part =~= name@);
    true
}

/// The kind that a field of the column `type` names, if it names one.
pub fn kind_from_name(word: &[u8]) -> (kind: Option<TransactionKind>)
    ensures
        kind == kind_of_name(word@),
{
    let (from, to) = trim(word);
    if is_name(word, from, to, "deposit".as_bytes(), true) {
        Some(TransactionKind::Deposit)
    } else if is_name(word, from, to, "withdrawal".as_bytes(), true) {
        Some(TransactionKind::Withdrawal)
    } else if is_name(word, from, to, "dispute".as_bytes(), true) {
        Some(TransactionKind::Dispute)
    } else if is_name(word, from, to, "resolve".as_bytes(), true) {
        Some(TransactionKind::Resolve)
    } else if is_name(word, from, to, "chargeback".as_bytes(), true) {
        Some(TransactionKind::Chargeback)
    } else {
        None
    }
}

/// Whether `word`, without the blanks around it, is `name`.
fn is_column(word: &Vec<u8>, name: &[u8]) -> (r: bool)
    ensures
        r == (trimmed(word@) == name@),
{
    let (from, to) = trim(word.as_slice());
    is_name(word.as_slice(), from, to, name, false)
}

/// Whether `names` is the header of the input table.
pub fn header_is_valid(names: &Vec<Vec<u8>>) -> (r: bool)
    ensures
        r == is_input_header(names.deep_view()),
{
    let ok = names.len() == 4 && is_column(&names[0], "type".as_bytes()) && is_column(
        &names[1],
        "client".as_bytes(),
    ) && is_column(&names[2], "tx".as_bytes()) && is_column(&names[3], "amount".as_bytes());
    proof {
        let view = names.deep_view();
        if names.len() == 4 {
            assert(view[0] == names[0]@);
            assert(view[1] == names[1]@);
            assert(view[2] == names[2]@);
            assert(view[3] == names[3]@);
        }
    }
    ok
}

} // verus!
