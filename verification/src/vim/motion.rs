//! Where each vim motion moves the cursor.
use vstd::prelude::*;
use vstd::utf8::*;

use crate::bytes::{
    in_class, lemma_scan_fwd, line_end, line_start, next_boundary, nl, prev_boundary, scan_back, scan_back_prev,
    scan_fwd, space_byte, word_byte, lemma_scan_back_prev, Class,
};
use crate::chars::unicode_whitespace;
use crate::text::byte_len;
use super::Motion;

verus! {

broadcast use vstd::string::group_string_axioms;

// ─── Single steps ──────────────────────────────────────────────────────────

pub open spec fn left_steps(b: Seq<u8>, pos: int, ls: int, n: nat) -> int
    decreases n,
{
    if n == 0 || pos <= ls {
        pos
    } else {
        left_steps(b, prev_boundary(b, pos), ls, (n - 1) as nat)
    }
}

pub open spec fn right_steps(b: Seq<u8>, pos: int, n: nat) -> int
    decreases n,
{
    if n == 0 || pos >= b.len() || b[pos] == nl() {
        pos
    } else {
        right_steps(b, next_boundary(b, pos), (n - 1) as nat)
    }
}

pub open spec fn up_step(b: Seq<u8>, pos: int) -> int {
    let ls = line_start(b, pos);
    let col = pos - ls;
    if ls == 0 {
        0
    } else {
        let pe = ls - 1;
        let ps = line_start(b, pe);
        let plen = pe - ps;
        ps + if col < plen {
            col
        } else {
            plen
        }
    }
}

pub open spec fn up_steps(b: Seq<u8>, pos: int, n: nat) -> int
    decreases n,
{
    if n == 0 {
        pos
    } else if line_start(b, pos) == 0 {
        0
    } else {
        up_steps(b, up_step(b, pos), (n - 1) as nat)
    }
}

pub open spec fn down_steps(b: Seq<u8>, pos: int, n: nat) -> int
    decreases n,
{
    if n == 0 {
        pos
    } else {
        let ls = line_start(b, pos);
        let col = pos - ls;
        let e = line_end(b, pos);
        if e < b.len() {
            let ns = e + 1;
            let nlen = line_end(b, ns) - ns;
            down_steps(b, ns + if col < nlen {
                col
            } else {
                nlen
            }, (n - 1) as nat)
        } else {
            b.len() as int
        }
    }
}

/// The kinds of word motion.
#[derive(Clone, Copy, PartialEq, Eq, Structural)]
pub enum WordStep {
    Start,
    Back,
    End,
    BigStart,
    BigBack,
    BigEnd,
}

/// `w`: past the current word and the punctuation after it, and past one
/// newline.
pub open spec fn next_word_start(b: Seq<u8>, c: int) -> int {
    if c >= b.len() {
        b.len() as int
    } else {
        let p2 = scan_fwd(b, scan_fwd(b, c, Class::Word), Class::Punct);
        if p2 < b.len() && b[p2] == nl() {
            p2 + 1
        } else {
            p2
        }
    }
}

/// `b`: back over non-word bytes, then to the start of the word.
pub open spec fn prev_word_start(b: Seq<u8>, c: int) -> int {
    if c == 0 {
        0
    } else {
        scan_back_prev(b, scan_back(b, c - 1, Class::NotWord), Class::Word)
    }
}

/// `e`: to the last byte of the next word end.
pub open spec fn next_word_end(b: Seq<u8>, c: int, skip: Class, word: Class) -> int {
    if c >= b.len() {
        b.len() as int
    } else {
        let p3 = scan_fwd(b, scan_fwd(b, c + 1, skip), word);
        let p4 = if p3 > 0 {
            p3 - 1
        } else {
            p3
        };
        if p4 > c {
            p4
        } else {
            c
        }
    }
}

/// `W`: past the current WORD and the whitespace after it.
pub open spec fn next_big_word_start(b: Seq<u8>, c: int) -> int {
    if c >= b.len() {
        b.len() as int
    } else {
        scan_fwd(b, scan_fwd(b, c, Class::NotSpace), Class::Space)
    }
}

/// `B`: back over whitespace, then to the start of the WORD.
pub open spec fn prev_big_word_start(b: Seq<u8>, c: int) -> int {
    if c == 0 {
        0
    } else {
        scan_back_prev(b, scan_back(b, c - 1, Class::Space), Class::NotSpace)
    }
}

pub open spec fn word_step(k: WordStep, b: Seq<u8>, c: int) -> int {
    match k {
        WordStep::Start => next_word_start(b, c),
        WordStep::Back => prev_word_start(b, c),
        WordStep::End => next_word_end(b, c, Class::NotWord, Class::Word),
        WordStep::BigStart => next_big_word_start(b, c),
        WordStep::BigBack => prev_big_word_start(b, c),
        WordStep::BigEnd => next_word_end(b, c, Class::Space, Class::NotSpace),
    }
}

/// `next_word_end` with a `word` class that is everything `skip` is not:
/// to the last byte of the next run of `word` bytes after `c`.
proof fn lemma_next_word_end(b: Seq<u8>, c: int, skip: Class, word: Class)
    requires
        0 <= c < b.len(),
        forall|x: u8| #[trigger] in_class(word, x) == !in_class(skip, x),
    ensures
        c <= next_word_end(b, c, skip, word) < b.len(),
        (exists|i: int| c < i < b.len() && in_class(word, #[trigger] b[i])) ==> {
            let r = next_word_end(b, c, skip, word);
            &&& c < r
            &&& in_class(word, b[r])
            &&& r + 1 == b.len() || !in_class(word, b[r + 1])
            &&& forall|i: int, j: int|
                c < i < j <= r && in_class(word, #[trigger] b[i]) ==> in_class(word, #[trigger] b[j])
        },
        (forall|i: int| c < i < b.len() ==> !in_class(word, #[trigger] b[i])) ==> next_word_end(b, c, skip, word)
            == b.len() - 1,
{
    let q = scan_fwd(b, c + 1, skip);
    lemma_scan_fwd(b, c + 1, skip);
    let p3 = scan_fwd(b, q, word);
    lemma_scan_fwd(b, q, word);
    let r = next_word_end(b, c, skip, word);
    assert forall|i: int| c < i < q implies !in_class(word, #[trigger] b[i]) by {
        assert(in_class(skip, b[i]));
    }
    if exists|i: int| c < i < b.len() && in_class(word, #[trigger] b[i]) {
        let w = choose|i: int| c < i < b.len() && in_class(word, #[trigger] b[i]);
        if q >= b.len() {
            assert(!in_class(word, b[w]));
        }
        assert(q < b.len());
        assert(!in_class(skip, b[q]));
        assert(in_class(word, b[q]));
        assert(p3 > q);
        assert(r == p3 - 1);
        assert forall|i: int, j: int| c < i < j <= r && in_class(word, #[trigger] b[i]) implies in_class(
            word,
            #[trigger] b[j],
        ) by {
            if i < q {
                assert(!in_class(word, b[i]));
            }
        }
    }
    if forall|i: int| c < i < b.len() ==> !in_class(word, #[trigger] b[i]) {
        if q < b.len() {
            assert(!in_class(skip, b[q]));
            assert(in_class(word, b[q]));
        }
        assert(q == b.len());
    }
}

/// `E` from byte `c` goes to the last byte of the next run of
/// non-whitespace bytes after `c`: past the whitespace right after `c`,
/// then through every non-whitespace byte (punctuation does not stop it)
/// to one followed by whitespace or the end of the text. With nothing but
/// whitespace after `c`, it goes to the last byte.
pub proof fn lemma_big_word_end(b: Seq<u8>, c: int)
    requires
        0 <= c < b.len(),
    ensures
        c <= word_step(WordStep::BigEnd, b, c) < b.len(),
        (exists|i: int| c < i < b.len() && !space_byte(#[trigger] b[i])) ==> {
            let r = word_step(WordStep::BigEnd, b, c);
            &&& c < r
            &&& !space_byte(b[r])
            &&& r + 1 == b.len() || space_byte(b[r + 1])
            &&& forall|i: int, j: int|
                c < i < j <= r && !space_byte(#[trigger] b[i]) ==> !space_byte(#[trigger] b[j])
        },
        (forall|i: int| c < i < b.len() ==> space_byte(#[trigger] b[i])) ==> word_step(
            WordStep::BigEnd,
            b,
            c,
        ) == b.len() - 1,
{
    assert forall|x: u8| #[trigger] in_class(Class::NotSpace, x) == !in_class(Class::Space, x) by {}
    lemma_next_word_end(b, c, Class::Space, Class::NotSpace);
    let r = word_step(WordStep::BigEnd, b, c);
    if exists|i: int| c < i < b.len() && !space_byte(#[trigger] b[i]) {
        let w = choose|i: int| c < i < b.len() && !space_byte(#[trigger] b[i]);
        assert(in_class(Class::NotSpace, b[w]));
        assert forall|i: int, j: int| c < i < j <= r && !space_byte(#[trigger] b[i]) implies !space_byte(
            #[trigger] b[j],
        ) by {
            assert(in_class(Class::NotSpace, b[i]));
        }
    }
    if forall|i: int| c < i < b.len() ==> space_byte(#[trigger] b[i]) {
        assert forall|i: int| c < i < b.len() implies !in_class(Class::NotSpace, #[trigger] b[i]) by {
            assert(space_byte(b[i]));
        }
    }
}

/// `e` from byte `c` goes to the last byte of the next word after `c` (a
/// run of letters, digits and `_`): past the non-word bytes right after
/// `c`, to a word byte followed by a non-word byte or the end of the text.
/// With no word byte after `c`, it goes to the last byte.
pub proof fn lemma_word_end(b: Seq<u8>, c: int)
    requires
        0 <= c < b.len(),
    ensures
        c <= word_step(WordStep::End, b, c) < b.len(),
        (exists|i: int| c < i < b.len() && word_byte(#[trigger] b[i])) ==> {
            let r = word_step(WordStep::End, b, c);
            &&& c < r
            &&& word_byte(b[r])
            &&& r + 1 == b.len() || !word_byte(b[r + 1])
            &&& forall|i: int, j: int| c < i < j <= r && word_byte(#[trigger] b[i]) ==> word_byte(#[trigger] b[j])
        },
        (forall|i: int| c < i < b.len() ==> !word_byte(#[trigger] b[i])) ==> word_step(WordStep::End, b, c)
            == b.len() - 1,
{
    assert forall|x: u8| #[trigger] in_class(Class::Word, x) == !in_class(Class::NotWord, x) by {}
    lemma_next_word_end(b, c, Class::NotWord, Class::Word);
    let r = word_step(WordStep::End, b, c);
    if exists|i: int| c < i < b.len() && word_byte(#[trigger] b[i]) {
        let w = choose|i: int| c < i < b.len() && word_byte(#[trigger] b[i]);
        assert(in_class(Class::Word, b[w]));
        assert forall|i: int, j: int| c < i < j <= r && word_byte(#[trigger] b[i]) implies word_byte(
            #[trigger] b[j],
        ) by {
            assert(in_class(Class::Word, b[i]));
        }
    }
    if forall|i: int| c < i < b.len() ==> !word_byte(#[trigger] b[i]) {
        assert forall|i: int| c < i < b.len() implies !in_class(Class::Word, #[trigger] b[i]) by {
            assert(!word_byte(b[i]));
        }
    }
}

/// `W` from byte `c` goes to the start of the next WORD: past the rest of
/// the run of non-whitespace bytes at `c`, then past the whitespace after
/// it, to a non-whitespace byte or the end of the text.
pub proof fn lemma_big_word_start(b: Seq<u8>, c: int)
    requires
        0 <= c < b.len(),
    ensures
        ({
            let r = word_step(WordStep::BigStart, b, c);
            &&& c < r <= b.len()
            &&& r < b.len() ==> !space_byte(b[r])
            &&& forall|i: int, j: int| c <= i < j < r && space_byte(#[trigger] b[i]) ==> space_byte(#[trigger] b[j])
            &&& !space_byte(b[c]) ==> exists|i: int| c < i <= r && (i == r || space_byte(#[trigger] b[i]))
                && (forall|j: int| c <= j < i ==> !space_byte(#[trigger] b[j]))
        }),
{
    let p1 = scan_fwd(b, c, Class::NotSpace);
    lemma_scan_fwd(b, c, Class::NotSpace);
    let r = scan_fwd(b, p1, Class::Space);
    lemma_scan_fwd(b, p1, Class::Space);
    assert forall|j: int| c <= j < p1 implies !space_byte(#[trigger] b[j]) by {
        assert(in_class(Class::NotSpace, b[j]));
    }
    assert forall|j: int| p1 <= j < r implies space_byte(#[trigger] b[j]) by {
        assert(in_class(Class::Space, b[j]));
    }
    if r < b.len() {
        assert(!in_class(Class::Space, b[r]));
    }
    if p1 == c {
        assert(!in_class(Class::NotSpace, b[c]));
        assert(space_byte(b[c]));
        assert(r > c);
    }
    assert forall|i: int, j: int| c <= i < j < r && space_byte(#[trigger] b[i]) implies space_byte(
        #[trigger] b[j],
    ) by {
        if i < p1 {
            assert(!space_byte(b[i]));
        }
    }
    if !space_byte(b[c]) {
        if p1 < b.len() {
            assert(!in_class(Class::NotSpace, b[p1]));
            assert(space_byte(b[p1]));
        }
        assert(c < p1 && p1 <= r && (p1 == r || space_byte(b[p1])) && (forall|j: int|
            c <= j < p1 ==> !space_byte(#[trigger] b[j])));
    }
}

proof fn lemma_scan_back_full(b: Seq<u8>, p: int, c: Class)
    requires
        0 <= p < b.len(),
    ensures
        0 <= scan_back(b, p, c) <= p,
        forall|j: int| scan_back(b, p, c) < j <= p ==> #[trigger] in_class(c, b[j]),
        scan_back(b, p, c) > 0 ==> !in_class(c, b[scan_back(b, p, c)]),
    decreases p,
{
    if p > 0 && in_class(c, b[p]) {
        lemma_scan_back_full(b, p - 1, c);
    }
}

/// Moving back over `skip` bytes before `c`, then to the start of the run
/// of `word` bytes found there, where `word` is everything `skip` is not.
proof fn lemma_prev_start(b: Seq<u8>, c: int, skip: Class, word: Class)
    requires
        0 < c <= b.len(),
        forall|x: u8| #[trigger] in_class(word, x) == !in_class(skip, x),
    ensures
        ({
            let r = scan_back_prev(b, scan_back(b, c - 1, skip), word);
            &&& 0 <= r < c
            &&& r > 0 ==> !in_class(word, b[r - 1]) && in_class(word, b[r])
            &&& forall|i: int, j: int|
                r <= i < j < c && !in_class(word, #[trigger] b[i]) ==> !in_class(word, #[trigger] b[j])
        }),
{
    let s1 = scan_back(b, c - 1, skip);
    lemma_scan_back_full(b, c - 1, skip);
    let r = scan_back_prev(b, s1, word);
    lemma_scan_back_prev(b, s1, word);
    assert forall|j: int| s1 < j <= c - 1 implies !in_class(word, #[trigger] b[j]) by {
        assert(in_class(skip, b[j]));
    }
    if r > 0 {
        if r == s1 {
            assert(!in_class(skip, b[s1]));
        }
    }
    assert forall|i: int, j: int| r <= i < j < c && !in_class(word, #[trigger] b[i]) implies !in_class(
        word,
        #[trigger] b[j],
    ) by {
        if i == s1 && s1 > 0 {
            assert(!in_class(skip, b[s1]));
        }
    }
}

/// `B` from byte `c` goes back to the start of a WORD: past the whitespace
/// just before `c`, to the first byte of the run of non-whitespace bytes
/// found there (or to 0).
pub proof fn lemma_big_word_back(b: Seq<u8>, c: int)
    requires
        0 < c <= b.len(),
    ensures
        ({
            let r = word_step(WordStep::BigBack, b, c);
            &&& 0 <= r < c
            &&& r > 0 ==> space_byte(b[r - 1]) && !space_byte(b[r])
            &&& forall|i: int, j: int| r <= i < j < c && space_byte(#[trigger] b[i]) ==> space_byte(#[trigger] b[j])
        }),
{
    assert forall|x: u8| #[trigger] in_class(Class::NotSpace, x) == !in_class(Class::Space, x) by {}
    lemma_prev_start(b, c, Class::Space, Class::NotSpace);
    let r = word_step(WordStep::BigBack, b, c);
    assert forall|i: int, j: int| r <= i < j < c && space_byte(#[trigger] b[i]) implies space_byte(
        #[trigger] b[j],
    ) by {
        assert(!in_class(Class::NotSpace, b[i]));
    }
}

/// `b` from byte `c` goes back to the start of a word: past the non-word
/// bytes just before `c`, to the first byte of the run of word bytes
/// (letters, digits, `_`) found there (or to 0).
pub proof fn lemma_word_back(b: Seq<u8>, c: int)
    requires
        0 < c <= b.len(),
    ensures
        ({
            let r = word_step(WordStep::Back, b, c);
            &&& 0 <= r < c
            &&& r > 0 ==> !word_byte(b[r - 1]) && word_byte(b[r])
            &&& forall|i: int, j: int| r <= i < j < c && !word_byte(#[trigger] b[i]) ==> !word_byte(#[trigger] b[j])
        }),
{
    assert forall|x: u8| #[trigger] in_class(Class::Word, x) == !in_class(Class::NotWord, x) by {}
    lemma_prev_start(b, c, Class::NotWord, Class::Word);
    let r = word_step(WordStep::Back, b, c);
    assert forall|i: int, j: int| r <= i < j < c && !word_byte(#[trigger] b[i]) implies !word_byte(
        #[trigger] b[j],
    ) by {
        assert(!in_class(Class::Word, b[i]));
        assert(!in_class(Class::Word, b[j]));
    }
}

pub open spec fn word_steps(k: WordStep, b: Seq<u8>, c: int, n: nat) -> int
    decreases n,
{
    if n == 0 {
        c
    } else {
        word_steps(k, b, word_step(k, b, c), (n - 1) as nat)
    }
}

/// `{n}G`: the start of line `k` counted from `pos` (the end of the text
/// when there are fewer lines).
pub open spec fn goto_line(b: Seq<u8>, pos: int, k: nat) -> int
    decreases k,
{
    if k == 0 {
        pos
    } else {
        let e = line_end(b, pos);
        if e < b.len() {
            goto_line(b, e + 1, (k - 1) as nat)
        } else {
            b.len() as int
        }
    }
}

/// The number of newline bytes among bytes `i` to `j` (not included).
pub open spec fn newline_count(b: Seq<u8>, i: int, j: int) -> nat
    decreases j - i,
{
    if i >= j {
        0
    } else {
        newline_count(b, i, j - 1) + (if b[j - 1] == nl() {
            1nat
        } else {
            0nat
        })
    }
}

proof fn lemma_newline_count_split(b: Seq<u8>, i: int, j: int, l: int)
    requires
        i <= j <= l,
    ensures
        newline_count(b, i, j) + newline_count(b, j, l) == newline_count(b, i, l),
    decreases l - j,
{
    if j < l {
        lemma_newline_count_split(b, i, j, l - 1);
    }
}

proof fn lemma_no_newlines(b: Seq<u8>, i: int, j: int)
    requires
        i <= j,
        forall|q: int| i <= q < j ==> b[q] != nl(),
    ensures
        newline_count(b, i, j) == 0,
    decreases j - i,
{
    if i < j {
        lemma_no_newlines(b, i, j - 1);
    }
}

proof fn lemma_goto_line_from(b: Seq<u8>, pos: int, k: nat)
    requires
        0 <= pos <= b.len(),
    ensures
        pos <= goto_line(b, pos, k) <= b.len(),
        goto_line(b, pos, k) < b.len() ==> newline_count(b, pos, goto_line(b, pos, k)) == k && (goto_line(
            b,
            pos,
            k,
        ) == pos || b[goto_line(b, pos, k) - 1] == nl()),
        goto_line(b, pos, k) == b.len() ==> newline_count(b, pos, b.len() as int) <= k,
    decreases k,
{
    if k > 0 {
        let e = line_end(b, pos);
        lemma_scan_fwd(b, pos, Class::NotNewline);
        assert forall|q: int| pos <= q < e implies b[q] != nl() by {
            assert(in_class(Class::NotNewline, b[q]));
        }
        lemma_no_newlines(b, pos, e);
        if e < b.len() {
            assert(!in_class(Class::NotNewline, b[e]));
            assert(newline_count(b, e, e + 1) == 1) by {
                assert(newline_count(b, e, e) == 0);
            }
            lemma_newline_count_split(b, pos, e, e + 1);
            lemma_goto_line_from(b, e + 1, (k - 1) as nat);
            let r = goto_line(b, e + 1, (k - 1) as nat);
            lemma_newline_count_split(b, pos, e + 1, r);
            lemma_newline_count_split(b, pos, e + 1, b.len() as int);
        } else {
            assert(e == b.len());
        }
    }
}

/// `{n}G` goes to the start of line `n` (counted from 1; 0 counts as 1):
/// a position with exactly `n - 1` newlines before it, just after one (or
/// at 0); or to the end of the text when it has no such line.
pub proof fn lemma_goto_line(b: Seq<u8>, s: Seq<char>, cursor: int, n: usize, count: nat)
    ensures
        ({
            let r = motion_target(Motion::GotoLine(n), b, s, cursor, count);
            let k = if n >= 1 {
                n - 1
            } else {
                0
            };
            &&& 0 <= r <= b.len()
            &&& r < b.len() ==> newline_count(b, 0, r) == k && (r == 0 || b[r - 1] == nl())
            &&& r == b.len() ==> newline_count(b, 0, b.len() as int) <= k
        }),
{
    let k: nat = (if n >= 1 {
        n - 1
    } else {
        0
    }) as nat;
    lemma_goto_line_from(b, 0, k);
}

pub open spec fn para_fwd_step(b: Seq<u8>, pos: int) -> int {
    scan_fwd(
        b,
        scan_fwd(b, scan_fwd(b, pos, Class::NotNewline), Class::Newline),
        Class::NotNewline,
    )
}

pub open spec fn para_fwd_steps(b: Seq<u8>, pos: int, n: nat) -> int
    decreases n,
{
    if n == 0 {
        pos
    } else {
        para_fwd_steps(b, para_fwd_step(b, pos), (n - 1) as nat)
    }
}

pub open spec fn para_back_step(b: Seq<u8>, pos: int) -> int {
    let p0 = if pos > 0 {
        pos - 1
    } else {
        pos
    };
    scan_back_prev(
        b,
        scan_back(b, scan_back(b, p0, Class::Newline), Class::NotNewline),
        Class::NotNewline,
    )
}

pub open spec fn para_back_steps(b: Seq<u8>, pos: int, n: nat) -> int
    decreases n,
{
    if n == 0 {
        pos
    } else {
        para_back_steps(b, para_back_step(b, pos), (n - 1) as nat)
    }
}

/// `e` occurs in `b` at `q`.
pub open spec fn occurs_at(b: Seq<u8>, e: Seq<u8>, q: int) -> bool {
    0 <= q && q + e.len() <= b.len() && b.subrange(q, q + e.len()) == e
}

/// The first occurrence of `e` at or after `q`, or -1.
pub open spec fn first_occurrence(b: Seq<u8>, e: Seq<u8>, q: int) -> int
    decreases b.len() + 1 - q,
{
    if q < 0 || q + e.len() > b.len() {
        -1
    } else if occurs_at(b, e, q) {
        q
    } else {
        first_occurrence(b, e, q + 1)
    }
}

/// The last occurrence of `e` at or before `q`, or -1.
pub open spec fn last_occurrence(b: Seq<u8>, e: Seq<u8>, q: int) -> int
    decreases q + 1,
{
    if q < 0 {
        -1
    } else if occurs_at(b, e, q) {
        q
    } else {
        last_occurrence(b, e, q - 1)
    }
}

proof fn lemma_first_occurrence(b: Seq<u8>, e: Seq<u8>, q: int)
    requires
        0 <= q,
    ensures
        first_occurrence(b, e, q) == -1 || (q <= first_occurrence(b, e, q) && occurs_at(
            b,
            e,
            first_occurrence(b, e, q),
        )),
        forall|i: int|
            q <= i && (first_occurrence(b, e, q) == -1 || i < first_occurrence(b, e, q)) ==> !#[trigger] occurs_at(
                b,
                e,
                i,
            ),
    decreases b.len() + 1 - q,
{
    if q + e.len() > b.len() {
    } else if !occurs_at(b, e, q) {
        lemma_first_occurrence(b, e, q + 1);
    }
}

proof fn lemma_last_occurrence(b: Seq<u8>, e: Seq<u8>, q: int)
    ensures
        last_occurrence(b, e, q) == -1 || (last_occurrence(b, e, q) <= q && occurs_at(
            b,
            e,
            last_occurrence(b, e, q),
        )),
        forall|i: int| last_occurrence(b, e, q) < i <= q ==> !#[trigger] occurs_at(b, e, i),
    decreases q + 1,
{
    if q >= 0 && !occurs_at(b, e, q) {
        lemma_last_occurrence(b, e, q - 1);
    }
}

/// `f{ch}` moves to the first place after the character at the cursor
/// where `ch` is written (its UTF-8 bytes), or stays when there is none.
pub proof fn lemma_find_char(b: Seq<u8>, s: Seq<char>, cursor: int, ch: char, count: nat)
    requires
        0 <= cursor,
        cursor <= next_boundary(b, cursor),
    ensures
        ({
            let r = motion_target(Motion::FindChar(ch), b, s, cursor, count);
            let e = encode_scalar(ch as u32);
            let from = next_boundary(b, cursor);
            ||| from <= r && occurs_at(b, e, r) && forall|i: int| from <= i < r ==> !#[trigger] occurs_at(b, e, i)
            ||| r == cursor && forall|i: int| from <= i ==> !#[trigger] occurs_at(b, e, i)
        }),
{
    let e = encode_scalar(ch as u32);
    lemma_first_occurrence(b, e, next_boundary(b, cursor));
}

/// `F{ch}` moves back to the last place where `ch` is written ending at or
/// before the cursor, or stays when there is none.
pub proof fn lemma_find_char_backward(b: Seq<u8>, s: Seq<char>, cursor: int, ch: char, count: nat)
    ensures
        ({
            let r = motion_target(Motion::FindCharBackward(ch), b, s, cursor, count);
            let e = encode_scalar(ch as u32);
            ||| r + e.len() <= cursor && occurs_at(b, e, r) && forall|i: int|
                r < i && i + e.len() <= cursor ==> !#[trigger] occurs_at(b, e, i)
            ||| r == cursor && forall|i: int| i + e.len() <= cursor ==> !#[trigger] occurs_at(b, e, i)
        }),
{
    let e = encode_scalar(ch as u32);
    lemma_last_occurrence(b, e, cursor - e.len());
    let q = find_char_back_target(b, cursor, ch);
    if q < 0 {
        assert forall|i: int| i + e.len() <= cursor implies !#[trigger] occurs_at(b, e, i) by {
            if i >= 0 {
                assert(q < i <= cursor - e.len());
            }
        }
    }
}

/// Where a forward search for `ch` starts: just after the character at
/// the cursor.
pub open spec fn find_char_target(b: Seq<u8>, cursor: int, ch: char) -> int {
    first_occurrence(b, encode_scalar(ch as u32), next_boundary(b, cursor))
}

/// The last occurrence of `ch` that ends at or before the cursor.
pub open spec fn find_char_back_target(b: Seq<u8>, cursor: int, ch: char) -> int {
    last_occurrence(b, encode_scalar(ch as u32), cursor - encode_scalar(ch as u32).len())
}

/// The bracket matching the one at the cursor: scanning with a depth count
/// that starts at 0 and returns where it comes back to 0.
pub open spec fn match_fwd(b: Seq<u8>, i: int, open: u8, close: u8, depth: int) -> int
    decreases b.len() - i,
{
    if i < 0 || i >= b.len() {
        -1
    } else {
        let d = depth + (if b[i] == open {
            1int
        } else {
            0
        }) - (if b[i] == close {
            1int
        } else {
            0
        });
        if d == 0 {
            i
        } else {
            match_fwd(b, i + 1, open, close, d)
        }
    }
}

pub open spec fn match_back(b: Seq<u8>, i: int, open: u8, close: u8, depth: int) -> int
    decreases i + 1,
{
    if i < 0 || i >= b.len() {
        -1
    } else {
        let d = depth + (if b[i] == close {
            1int
        } else {
            0
        }) - (if b[i] == open {
            1int
        } else {
            0
        });
        if d == 0 {
            i
        } else {
            match_back(b, i - 1, open, close, d)
        }
    }
}

pub open spec fn matching_bracket(b: Seq<u8>, cursor: int) -> int {
    if cursor >= b.len() {
        cursor
    } else {
        let ch = b[cursor];
        let r = if ch == 40 {
            match_fwd(b, cursor, 40, 41, 0)
        } else if ch == 41 {
            match_back(b, cursor, 40, 41, 0)
        } else if ch == 91 {
            match_fwd(b, cursor, 91, 93, 0)
        } else if ch == 93 {
            match_back(b, cursor, 91, 93, 0)
        } else if ch == 123 {
            match_fwd(b, cursor, 123, 125, 0)
        } else if ch == 125 {
            match_back(b, cursor, 123, 125, 0)
        } else {
            -1
        };
        if r >= 0 {
            r
        } else {
            cursor
        }
    }
}

/// The index of the first character, starting at character `k`, that
/// starts at or after byte `from` and is a newline or not white space;
/// `s.len()` when there is none.
pub open spec fn first_nonblank(s: Seq<char>, from: int, k: int) -> int
    decreases s.len() - k,
{
    if k < 0 || k >= s.len() {
        s.len() as int
    } else if byte_len(s.take(k)) >= from && (!unicode_whitespace(s[k]) || s[k] == '\n') {
        k
    } else {
        first_nonblank(s, from, k + 1)
    }
}

/// `^`: the first character of the line that is not white space.
pub open spec fn first_nonblank_target(b: Seq<u8>, s: Seq<char>, cursor: int) -> int {
    let ls = line_start(b, cursor);
    let k = first_nonblank(s, ls, 0);
    if k < s.len() {
        byte_len(s.take(k)) as int
    } else {
        ls
    }
}

/// Where a motion moves a cursor at byte `cursor` in the text `s`
/// (`b` its bytes), repeated `count` times where it repeats.
pub open spec fn motion_target(m: Motion, b: Seq<u8>, s: Seq<char>, cursor: int, count: nat) -> int {
    match m {
        Motion::Left => left_steps(b, cursor, line_start(b, cursor), count),
        Motion::Right => right_steps(b, cursor, count),
        Motion::Up => up_steps(b, cursor, count),
        Motion::Down => down_steps(b, cursor, count),
        Motion::WordForward => word_steps(WordStep::Start, b, cursor, count),
        Motion::WordBackward => word_steps(WordStep::Back, b, cursor, count),
        Motion::WordEnd => word_steps(WordStep::End, b, cursor, count),
        Motion::BigWordForward => word_steps(WordStep::BigStart, b, cursor, count),
        Motion::BigWordBackward => word_steps(WordStep::BigBack, b, cursor, count),
        Motion::BigWordEnd => word_steps(WordStep::BigEnd, b, cursor, count),
        Motion::LineStart => line_start(b, cursor),
        Motion::FirstNonWhitespace => first_nonblank_target(b, s, cursor),
        Motion::LineEnd => line_end(b, cursor),
        Motion::Line => cursor,
        Motion::DocStart => 0,
        Motion::DocEnd => b.len() as int,
        Motion::GotoLine(n) => goto_line(b, 0, (if n >= 1 {
            n - 1
        } else {
            0
        }) as nat),
        Motion::FindChar(ch) => {
            let q = find_char_target(b, cursor, ch);
            if q >= 0 {
                q
            } else {
                cursor
            }
        },
        Motion::TilChar(ch) => {
            let q = find_char_target(b, cursor, ch);
            if q >= 0 && q > cursor {
                prev_boundary(b, q)
            } else {
                cursor
            }
        },
        Motion::FindCharBackward(ch) => {
            let q = find_char_back_target(b, cursor, ch);
            if q >= 0 {
                q
            } else {
                cursor
            }
        },
        Motion::TilCharBackward(ch) => {
            let q = find_char_back_target(b, cursor, ch);
            if q >= 0 {
                next_boundary(b, q)
            } else {
                cursor
            }
        },
        Motion::ParagraphForward => {
            let p = para_fwd_steps(b, cursor, count);
            if p < b.len() {
                p
            } else {
                b.len() as int
            }
        },
        Motion::ParagraphBackward => para_back_steps(b, cursor, count),
        Motion::MatchingBracket => matching_bracket(b, cursor),
        Motion::Indent | Motion::Dedent => cursor,
    }
}

} // verus!
