//! Lines and words of a text: where a word stands, where a line begins, how
//! far a line is indented, and what putting two texts in a row keeps of that.

use vstd::prelude::*;

verus! {

/// `word` stands in `text` from position `at` on.
pub open spec fn occurs_at(text: Seq<char>, word: Seq<char>, at: int) -> bool {
    &&& 0 <= at
    &&& at + word.len() <= text.len()
    &&& forall|k: int| 0 <= k < word.len() ==> text[at + k] == #[trigger] word[k]
}

/// `word` stands somewhere in `text`.
pub open spec fn occurs(text: Seq<char>, word: Seq<char>) -> bool {
    exists|at: int| occurs_at(text, word, at)
}

/// `text` holds no line break.
pub open spec fn single_line(text: Seq<char>) -> bool {
    forall|k: int| 0 <= k < text.len() ==> text[k] != '\n'
}

/// `text` has at least `width` spaces from position `at` on.
pub open spec fn margin_at(text: Seq<char>, at: int, width: nat) -> bool {
    &&& 0 <= at
    &&& at + width <= text.len()
    &&& forall|k: int| at <= k < at + width ==> text[k] == ' '
}

/// A line of `text` begins at position `at`: there is text at `at`, and it is
/// the first of all or follows a line break.
pub open spec fn line_start(text: Seq<char>, at: int) -> bool {
    0 <= at < text.len() && (at == 0 || text[at - 1] == '\n')
}

/// Every line of `text` begins with at least `width` spaces.
pub open spec fn lines_indented(text: Seq<char>, width: nat) -> bool {
    forall|at: int| line_start(text, at) ==> margin_at(text, at, width)
}

/// `text` has exactly `width` spaces from position `at` on, and then
/// something else.
pub open spec fn indented_exactly(text: Seq<char>, at: int, width: nat) -> bool {
    margin_at(text, at, width) && at + width < text.len() && text[at + width] != ' '
}

/// Every line break of `text` that has text after it is followed by at least
/// `width` spaces.
pub open spec fn breaks_indented(text: Seq<char>, width: nat) -> bool {
    forall|k: int|
        0 <= k && k + 1 < text.len() && #[trigger] text[k] == '\n' ==> margin_at(
            text,
            k + 1,
            width,
        )
}

/// `text` does not end with a line break.
pub open spec fn open_ended(text: Seq<char>) -> bool {
    text.len() > 0 ==> text.last() != '\n'
}

/// `text` can stand inside a line at indentation `width`: where it breaks the
/// line, it goes on behind `width` spaces, and it leaves the line open.
pub open spec fn fits_line(text: Seq<char>, width: nat) -> bool {
    breaks_indented(text, width) && open_ended(text)
}

/// `text` is the end of a line: some text without a line break, then one.
pub open spec fn line_end(text: Seq<char>) -> bool {
    text.len() > 0 && text.last() == '\n' && single_line(text.drop_last())
}

/// `text` begins with `start`.
pub open spec fn starts_with(text: Seq<char>, start: Seq<char>) -> bool {
    start.len() <= text.len() && forall|k: int| 0 <= k < start.len() ==> text[k] == start[k]
}

/// Two texts without a line break have none when put in a row.
pub broadcast proof fn lemma_single_line_concat(a: Seq<char>, b: Seq<char>)
    requires
        single_line(a),
        single_line(b),
    ensures
        #[trigger] single_line(a + b),
{
}

/// Text without a line break can stand inside any line.
pub broadcast proof fn lemma_single_line_fits(text: Seq<char>, width: nat)
    requires
        single_line(text),
    ensures
        #[trigger] breaks_indented(text, width),
        open_ended(text),
{
}

/// The end of a line has no line break with text after it.
pub broadcast proof fn lemma_line_end_breaks(text: Seq<char>, width: nat)
    requires
        line_end(text),
    ensures
        #[trigger] breaks_indented(text, width),
{
    assert forall|k: int| 0 <= k && k + 1 < text.len() implies #[trigger] text[k] != '\n' by {
        assert(text.drop_last()[k] == text[k]);
    }
}

/// Two texts in a row keep their line breaks indented where the first leaves
/// its line open or the second starts indented.
pub broadcast proof fn lemma_breaks_indented_concat(a: Seq<char>, b: Seq<char>, width: nat)
    requires
        breaks_indented(a, width),
        breaks_indented(b, width),
        open_ended(a) || b.len() == 0 || margin_at(b, 0, width),
    ensures
        #[trigger] breaks_indented(a + b, width),
{
    let text = a + b;
    assert forall|k: int|
        0 <= k && k + 1 < text.len() && #[trigger] text[k] == '\n' implies margin_at(
        text,
        k + 1,
        width,
    ) by {
        if k + 1 < a.len() {
            assert(a[k] == '\n');
            assert(margin_at(a, k + 1, width));
            assert forall|j: int| k + 1 <= j < k + 1 + width implies text[j] == ' ' by {
                assert(a[j] == ' ');
            }
        } else if k + 1 == a.len() {
            assert(a.last() == '\n');
            assert(margin_at(b, 0, width));
            assert forall|j: int| k + 1 <= j < k + 1 + width implies text[j] == ' ' by {
                assert(b[j - a.len()] == ' ');
            }
        } else {
            assert(b[k - a.len()] == '\n');
            assert(margin_at(b, k - a.len() + 1, width));
            assert forall|j: int| k + 1 <= j < k + 1 + width implies text[j] == ' ' by {
                assert(b[j - a.len()] == ' ');
            }
        }
    }
}

/// Two texts in a row leave the line open where the second does, or where the
/// second is empty and the first does.
pub broadcast proof fn lemma_open_ended_concat(a: Seq<char>, b: Seq<char>)
    requires
        open_ended(b),
        b.len() > 0 || open_ended(a),
    ensures
        #[trigger] open_ended(a + b),
{
    if b.len() == 0 {
        assert(a + b =~= a);
    }
}

/// What starts indented stays so with more text behind it, and text behind
/// nothing starts as it does alone.
pub broadcast proof fn lemma_margin_concat(a: Seq<char>, b: Seq<char>, width: nat)
    requires
        margin_at(a, 0, width) || (a.len() == 0 && margin_at(b, 0, width)),
    ensures
        #[trigger] margin_at(a + b, 0, width),
{
    if margin_at(a, 0, width) {
        assert forall|k: int| 0 <= k < 0 + width implies (a + b)[k] == ' ' by {
            assert(a[k] == ' ');
        }
    } else {
        assert(a + b =~= b);
    }
}

/// What a text begins with, it begins with when more text follows it.
pub broadcast proof fn lemma_starts_with_concat(a: Seq<char>, b: Seq<char>, start: Seq<char>)
    requires
        starts_with(a, start),
    ensures
        #[trigger] starts_with(a + b, start),
{
}

/// What is indented by some width is indented by every smaller one.
pub proof fn lemma_narrower(text: Seq<char>, width: nat, less: nat)
    requires
        less <= width,
    ensures
        breaks_indented(text, width) ==> breaks_indented(text, less),
        forall|at: int| margin_at(text, at, width) ==> margin_at(text, at, less),
{
    if breaks_indented(text, width) {
        assert forall|k: int|
            0 <= k && k + 1 < text.len() && #[trigger] text[k] == '\n' implies margin_at(
            text,
            k + 1,
            less,
        ) by {
            assert(margin_at(text, k + 1, width));
        }
    }
}

/// `part` stands in `text` right behind a line break.
pub open spec fn on_new_line(text: Seq<char>, part: Seq<char>, at: int) -> bool {
    0 < at <= text.len() && text[at - 1] == '\n' && occurs_at(text, part, at)
}

/// Somewhere in `text`, `part` stands right behind a line break.
pub open spec fn begins_line(text: Seq<char>, part: Seq<char>) -> bool {
    exists|at: int| on_new_line(text, part, at)
}

/// Two texts in a row hold on a new line what either of them does, and the
/// second as a whole where the first ends with a line break.
pub broadcast proof fn lemma_begins_line_concat(a: Seq<char>, b: Seq<char>, part: Seq<char>)
    requires
        begins_line(a, part) || begins_line(b, part) || (a.len() > 0 && a.last() == '\n' && b
            == part),
    ensures
        #[trigger] begins_line(a + b, part),
{
    let text = a + b;
    if begins_line(a, part) {
        let at = choose|at: int| on_new_line(a, part, at);
        assert forall|k: int| 0 <= k < part.len() implies text[at + k] == #[trigger] part[k] by {
            assert(a[at + k] == part[k]);
        }
        assert(on_new_line(text, part, at));
    } else if begins_line(b, part) {
        let at = choose|at: int| on_new_line(b, part, at);
        assert forall|k: int| 0 <= k < part.len() implies text[a.len() + at + k]
            == #[trigger] part[k] by {
            assert(b[at + k] == part[k]);
        }
        assert(text[a.len() + at - 1] == b[at - 1]);
        assert(on_new_line(text, part, a.len() + at));
    } else {
        assert(on_new_line(text, part, a.len() as int));
    }
}

} // verus!
