//! Computing where vim motions move the cursor.
use vstd::prelude::*;
use vstd::utf8::*;

use crate::bytes::{
    lemma_scan_back, lemma_scan_back_prev, lemma_scan_fwd, line_end_of, line_start, line_start_of,
    next_boundary, next_char_boundary, prev_boundary, prev_char_boundary, scan_back, scan_back_prev,
    scan_backward,
    scan_backward_prev, scan_forward, scan_fwd, Class,
};
use crate::chars::{char_table, is_whitespace_char, lemma_byte_len_take, lemma_encode_push};
use crate::text::{push_char, utf8_bytes};
use super::Motion;
use super::motion::{
    down_steps, find_char_back_target, find_char_target, first_nonblank, first_nonblank_target,
    goto_line, last_occurrence, left_steps, match_back, match_fwd,
    matching_bracket, motion_target, occurs_at, first_occurrence, para_back_steps, para_fwd_steps,
    right_steps, up_steps, word_step, word_steps, WordStep,
};

verus! {

broadcast use vstd::string::group_string_axioms;

proof fn lemma_prev_boundary_le(b: Seq<u8>, p: int)
    requires
        0 <= p <= b.len(),
    ensures
        0 <= prev_boundary(b, p) <= p,
        p > 0 ==> prev_boundary(b, p) < p,
{
    if p > 0 {
        lemma_scan_back(b, p - 1, Class::Cont);
    }
}

fn left_target(bytes: &[u8], cursor: usize, count: usize) -> (r: usize)
    requires
        cursor <= bytes@.len(),
    ensures
        r == left_steps(bytes@, cursor as int, line_start(bytes@, cursor as int), count as nat),
        r <= cursor,
{
    let ls = line_start_of(bytes, cursor);
    let mut pos = cursor;
    let mut i: usize = 0;
    while i < count
        invariant
            i <= count,
            pos <= cursor <= bytes@.len(),
            ls == line_start(bytes@, cursor as int),
            left_steps(bytes@, pos as int, ls as int, (count - i) as nat) == left_steps(
                bytes@,
                cursor as int,
                ls as int,
                count as nat,
            ),
        ensures
            pos == left_steps(bytes@, cursor as int, ls as int, count as nat),
            pos <= cursor,
        decreases count - i,
    {
        if pos <= ls {
            break;
        }
        proof {
            lemma_prev_boundary_le(bytes@, pos as int);
        }
        pos = prev_char_boundary(bytes, pos);
        i = i + 1;
    }
    pos
}

fn right_target(bytes: &[u8], cursor: usize, count: usize) -> (r: usize)
    requires
        cursor <= bytes@.len(),
    ensures
        r == right_steps(bytes@, cursor as int, count as nat),
        r <= bytes@.len(),
{
    let len = bytes.len();
    let mut pos = cursor;
    let mut i: usize = 0;
    while i < count
        invariant
            i <= count,
            len == bytes@.len(),
            pos <= len,
            right_steps(bytes@, pos as int, (count - i) as nat) == right_steps(
                bytes@,
                cursor as int,
                count as nat,
            ),
        ensures
            pos == right_steps(bytes@, cursor as int, count as nat),
        decreases count - i,
    {
        if pos >= len {
            break;
        }
        if bytes[pos] == 10 {
            break;
        }
        pos = next_char_boundary(bytes, pos);
        i = i + 1;
    }
    pos
}

fn up_target(bytes: &[u8], cursor: usize, count: usize) -> (r: usize)
    requires
        cursor <= bytes@.len(),
    ensures
        r == up_steps(bytes@, cursor as int, count as nat),
        r <= bytes@.len(),
{
    let mut pos = cursor;
    let mut i: usize = 0;
    while i < count
        invariant
            i <= count,
            pos <= bytes@.len(),
            up_steps(bytes@, pos as int, (count - i) as nat) == up_steps(
                bytes@,
                cursor as int,
                count as nat,
            ),
        ensures
            pos == up_steps(bytes@, cursor as int, count as nat),
        decreases count - i,
    {
        let ls = line_start_of(bytes, pos);
        let col = pos - ls;
        if ls == 0 {
            pos = 0;
            break;
        }
        let pe = ls - 1;
        let ps = line_start_of(bytes, pe);
        let plen = pe - ps;
        pos = ps + if col < plen {
            col
        } else {
            plen
        };
        i = i + 1;
    }
    pos
}

fn down_target(bytes: &[u8], cursor: usize, count: usize) -> (r: usize)
    requires
        cursor <= bytes@.len(),
    ensures
        r == down_steps(bytes@, cursor as int, count as nat),
        r <= bytes@.len(),
{
    let len = bytes.len();
    let mut pos = cursor;
    let mut i: usize = 0;
    while i < count
        invariant
            i <= count,
            len == bytes@.len(),
            pos <= len,
            down_steps(bytes@, pos as int, (count - i) as nat) == down_steps(
                bytes@,
                cursor as int,
                count as nat,
            ),
        ensures
            pos == down_steps(bytes@, cursor as int, count as nat),
        decreases count - i,
    {
        let ls = line_start_of(bytes, pos);
        let col = pos - ls;
        let e = line_end_of(bytes, pos);
        if e < len {
            let ns = e + 1;
            let ne = line_end_of(bytes, ns);
            let nlen = ne - ns;
            pos = ns + if col < nlen {
                col
            } else {
                nlen
            };
        } else {
            pos = len;
            break;
        }
        i = i + 1;
    }
    pos
}

/// `w`: past the rest of the word and the punctuation after it, and past a
/// newline there.
fn next_word_start(bytes: &[u8], c: usize) -> (r: usize)
    requires
        c <= bytes@.len(),
    ensures
        r == word_step(WordStep::Start, bytes@, c as int),
        r <= bytes@.len(),
{
    let len = bytes.len();
    if c >= len {
        return len;
    }
    proof {
        lemma_scan_fwd(bytes@, c as int, Class::Word);
        lemma_scan_fwd(bytes@, scan_fwd(bytes@, c as int, Class::Word), Class::Punct);
    }
    let p1 = scan_forward(bytes, c, Class::Word);
    let p2 = scan_forward(bytes, p1, Class::Punct);
    if p2 < len && bytes[p2] == 10 {
        p2 + 1
    } else {
        p2
    }
}

/// `b` (or `B` with the WORD classes): back over what separates words,
/// then to the start of the word.
fn prev_start(bytes: &[u8], c: usize, skip: Class, word: Class) -> (r: usize)
    requires
        c <= bytes@.len(),
    ensures
        r == (if c == 0 {
            0
        } else {
            scan_back_prev(bytes@, scan_back(bytes@, c - 1, skip), word)
        }),
        r <= bytes@.len(),
{
    if c == 0 {
        return 0;
    }
    proof {
        lemma_scan_back(bytes@, c - 1, skip);
    }
    let p2 = scan_backward(bytes, c - 1, skip);
    proof {
        lemma_scan_back_prev(bytes@, p2 as int, word);
    }
    scan_backward_prev(bytes, p2, word)
}

/// `b`: back to the start of the previous word.
fn prev_word_start(bytes: &[u8], c: usize) -> (r: usize)
    requires
        c <= bytes@.len(),
    ensures
        r == word_step(WordStep::Back, bytes@, c as int),
        r <= bytes@.len(),
{
    prev_start(bytes, c, Class::NotWord, Class::Word)
}

/// `B`: back to the start of the previous WORD.
fn prev_big_word_start(bytes: &[u8], c: usize) -> (r: usize)
    requires
        c <= bytes@.len(),
    ensures
        r == word_step(WordStep::BigBack, bytes@, c as int),
        r <= bytes@.len(),
{
    prev_start(bytes, c, Class::Space, Class::NotSpace)
}

/// `e` (or `E` with the WORD classes): to the last byte of the next word.
fn next_end(bytes: &[u8], c: usize, skip: Class, word: Class) -> (r: usize)
    requires
        c <= bytes@.len(),
    ensures
        r == super::motion::next_word_end(bytes@, c as int, skip, word),
        r <= bytes@.len(),
{
    let len = bytes.len();
    if c >= len {
        return len;
    }
    proof {
        lemma_scan_fwd(bytes@, c + 1, skip);
        lemma_scan_fwd(bytes@, scan_fwd(bytes@, c + 1, skip), word);
    }
    let p2 = scan_forward(bytes, c + 1, skip);
    let p3 = scan_forward(bytes, p2, word);
    let p4 = if p3 > 0 {
        p3 - 1
    } else {
        p3
    };
    if p4 > c {
        p4
    } else {
        c
    }
}

/// `e`: to the end of the next word.
fn next_word_end(bytes: &[u8], c: usize) -> (r: usize)
    requires
        c <= bytes@.len(),
    ensures
        r == word_step(WordStep::End, bytes@, c as int),
        r <= bytes@.len(),
{
    next_end(bytes, c, Class::NotWord, Class::Word)
}

/// `E`: to the end of the next WORD.
fn next_big_word_end(bytes: &[u8], c: usize) -> (r: usize)
    requires
        c <= bytes@.len(),
    ensures
        r == word_step(WordStep::BigEnd, bytes@, c as int),
        r <= bytes@.len(),
{
    next_end(bytes, c, Class::Space, Class::NotSpace)
}

/// `W`: past the rest of the WORD and the white space after it.
fn next_big_word_start(bytes: &[u8], c: usize) -> (r: usize)
    requires
        c <= bytes@.len(),
    ensures
        r == word_step(WordStep::BigStart, bytes@, c as int),
        r <= bytes@.len(),
{
    let len = bytes.len();
    if c >= len {
        return len;
    }
    proof {
        lemma_scan_fwd(bytes@, c as int, Class::NotSpace);
        lemma_scan_fwd(bytes@, scan_fwd(bytes@, c as int, Class::NotSpace), Class::Space);
    }
    let p1 = scan_forward(bytes, c, Class::NotSpace);
    scan_forward(bytes, p1, Class::Space)
}

/// One step of a word motion.
fn word_step_exec(k: WordStep, bytes: &[u8], c: usize) -> (r: usize)
    requires
        c <= bytes@.len(),
    ensures
        r == word_step(k, bytes@, c as int),
        r <= bytes@.len(),
{
    match k {
        WordStep::Start => next_word_start(bytes, c),
        WordStep::Back => prev_word_start(bytes, c),
        WordStep::End => next_word_end(bytes, c),
        WordStep::BigStart => next_big_word_start(bytes, c),
        WordStep::BigBack => prev_big_word_start(bytes, c),
        WordStep::BigEnd => next_big_word_end(bytes, c),
    }
}

fn word_target(k: WordStep, bytes: &[u8], cursor: usize, count: usize) -> (r: usize)
    requires
        cursor <= bytes@.len(),
    ensures
        r == word_steps(k, bytes@, cursor as int, count as nat),
        r <= bytes@.len(),
{
    let mut pos = cursor;
    let mut i: usize = 0;
    while i < count
        invariant
            i <= count,
            pos <= bytes@.len(),
            word_steps(k, bytes@, pos as int, (count - i) as nat) == word_steps(
                k,
                bytes@,
                cursor as int,
                count as nat,
            ),
        decreases count - i,
    {
        pos = word_step_exec(k, bytes, pos);
        i = i + 1;
    }
    pos
}

fn goto_line_target(bytes: &[u8], n: usize) -> (r: usize)
    ensures
        r == goto_line(bytes@, 0, (if n >= 1 {
            n - 1
        } else {
            0
        }) as nat),
        r <= bytes@.len(),
{
    let len = bytes.len();
    let target: usize = if n >= 1 {
        n - 1
    } else {
        0
    };
    let mut pos: usize = 0;
    let mut i: usize = 0;
    while i < target
        invariant
            i <= target,
            len == bytes@.len(),
            pos <= len,
            goto_line(bytes@, pos as int, (target - i) as nat) == goto_line(bytes@, 0, target as nat),
            target as int == (if n >= 1 {
                n - 1
            } else {
                0
            }),
        decreases target - i,
    {
        let e = line_end_of(bytes, pos);
        if e < len {
            pos = e + 1;
        } else {
            assert(goto_line(bytes@, pos as int, (target - i) as nat) == len);
            return len;
        }
        i = i + 1;
    }
    pos
}

fn para_fwd_target(bytes: &[u8], cursor: usize, count: usize) -> (r: usize)
    requires
        cursor <= bytes@.len(),
    ensures
        r == para_fwd_steps(bytes@, cursor as int, count as nat),
        r <= bytes@.len(),
{
    let mut pos = cursor;
    let mut i: usize = 0;
    while i < count
        invariant
            i <= count,
            pos <= bytes@.len(),
            para_fwd_steps(bytes@, pos as int, (count - i) as nat) == para_fwd_steps(
                bytes@,
                cursor as int,
                count as nat,
            ),
        decreases count - i,
    {
        proof {
            let b = bytes@;
            lemma_scan_fwd(b, pos as int, Class::NotNewline);
            lemma_scan_fwd(b, scan_fwd(b, pos as int, Class::NotNewline), Class::Newline);
            lemma_scan_fwd(
                b,
                scan_fwd(b, scan_fwd(b, pos as int, Class::NotNewline), Class::Newline),
                Class::NotNewline,
            );
        }
        let p1 = scan_forward(bytes, pos, Class::NotNewline);
        let p2 = scan_forward(bytes, p1, Class::Newline);
        pos = scan_forward(bytes, p2, Class::NotNewline);
        i = i + 1;
    }
    pos
}

fn para_back_target(bytes: &[u8], cursor: usize, count: usize) -> (r: usize)
    requires
        cursor <= bytes@.len(),
    ensures
        r == para_back_steps(bytes@, cursor as int, count as nat),
        r <= bytes@.len(),
{
    let mut pos = cursor;
    let mut i: usize = 0;
    while i < count
        invariant
            i <= count,
            pos <= cursor <= bytes@.len(),
            para_back_steps(bytes@, pos as int, (count - i) as nat) == para_back_steps(
                bytes@,
                cursor as int,
                count as nat,
            ),
        decreases count - i,
    {
        let ghost b = bytes@;
        if pos > 0 {
            pos = pos - 1;
            proof {
                lemma_scan_back(b, pos as int, Class::Newline);
                lemma_scan_back(b, scan_back(b, pos as int, Class::Newline), Class::NotNewline);
            }
            let p2 = scan_backward(bytes, pos, Class::Newline);
            let p3 = scan_backward(bytes, p2, Class::NotNewline);
            proof {
                lemma_scan_back_prev(b, p3 as int, Class::NotNewline);
            }
            pos = scan_backward_prev(bytes, p3, Class::NotNewline);
        }
        i = i + 1;
    }
    pos
}

fn occurs(b: &[u8], e: &[u8], q: usize) -> (r: bool)
    requires
        q + e@.len() <= b@.len(),
    ensures
        r == occurs_at(b@, e@, q as int),
{
    let n = e.len();
    let len = b.len();
    let mut j: usize = 0;
    while j < n
        invariant
            n == e@.len(),
            len == b@.len(),
            q + n <= len,
            j <= n,
            forall|t: int| 0 <= t < j ==> b@[q + t] == e@[t],
        decreases n - j,
    {
        if b[q + j] != e[j] {
            assert(b@.subrange(q as int, q + n)[j as int] != e@[j as int]);
            return false;
        }
        j = j + 1;
    }
    assert(b@.subrange(q as int, q + n) =~= e@);
    true
}

fn first_occurrence_from(b: &[u8], e: &[u8], start: usize) -> (r: Option<usize>)
    ensures
        match r {
            Some(q) => q as int == first_occurrence(b@, e@, start as int) && q + e@.len() <= b@.len(),
            None => first_occurrence(b@, e@, start as int) == -1,
        },
{
    let len = b.len();
    let n = e.len();
    if n > len {
        return None;
    }

    if start > len - n {
        assert(first_occurrence(b@, e@, start as int) == -1);
        return None;
    }
    let mut q = start;
    loop
        invariant
            len == b@.len(),
            n == e@.len(),
            n <= len,
            start <= q <= len - n,
            first_occurrence(b@, e@, q as int) == first_occurrence(b@, e@, start as int),
        decreases len - n - q,
    {
        if occurs(b, e, q) {
            return Some(q);
        }
        if q == len - n {
            assert(first_occurrence(b@, e@, q + 1) == -1);
            return None;
        }
        q = q + 1;
    }
}

fn last_occurrence_from(b: &[u8], e: &[u8], start: usize) -> (r: Option<usize>)
    ensures
        match r {
            Some(q) => q as int == last_occurrence(b@, e@, start as int) && q + e@.len() <= b@.len(),
            None => last_occurrence(b@, e@, start as int) == -1,
        },
{
    let len = b.len();
    let n = e.len();
    if n > len {
        assert(last_occurrence(b@, e@, start as int) == -1) by {
            lemma_no_occurrence(b@, e@, start as int);
        }
        return None;
    }
    let mut q = start;
    if q > len - n {
        assert(last_occurrence(b@, e@, start as int) == last_occurrence(b@, e@, (len - n) as int)) by {
            lemma_last_occurrence_clip(b@, e@, start as int, (len - n) as int);
        }
        q = len - n;
    }
    loop
        invariant
            len == b@.len(),
            n == e@.len(),
            n <= len,
            q + n <= len,
            last_occurrence(b@, e@, q as int) == last_occurrence(b@, e@, start as int),
        decreases q,
    {
        if occurs(b, e, q) {
            return Some(q);
        }
        if q == 0 {
            assert(last_occurrence(b@, e@, -1) == -1);
            return None;
        }
        q = q - 1;
    }
}

proof fn lemma_no_occurrence(b: Seq<u8>, e: Seq<u8>, q: int)
    requires
        e.len() > b.len(),
    ensures
        last_occurrence(b, e, q) == -1,
    decreases q + 1,
{
    if q >= 0 {
        lemma_no_occurrence(b, e, q - 1);
    }
}

proof fn lemma_last_occurrence_clip(b: Seq<u8>, e: Seq<u8>, q: int, top: int)
    requires
        top == b.len() - e.len(),
        0 <= top <= q,
    ensures
        last_occurrence(b, e, q) == last_occurrence(b, e, top),
    decreases q - top,
{
    if q > top {
        lemma_last_occurrence_clip(b, e, q - 1, top);
    }
}

fn match_forward(bytes: &[u8], cursor: usize, open: u8, close: u8) -> (r: usize)
    requires
        cursor < bytes@.len(),
        bytes@[cursor as int] == open,
        open != close,
    ensures
        ({
            let m = match_fwd(bytes@, cursor as int, open, close, 0);
            r == if m >= 0 {
                m
            } else {
                cursor as int
            }
        }),
        r < bytes@.len(),
{
    let ghost b = bytes@;
    let len = bytes.len();
    assert(match_fwd(b, cursor as int, open, close, 0) == match_fwd(b, cursor + 1, open, close, 1));
    let mut depth: usize = 1;
    let mut i: usize = cursor + 1;
    while i < len
        invariant
            len == b.len(),
            b == bytes@,
            cursor < i <= len,
            1 <= depth <= i - cursor,
            open != close,
            match_fwd(b, i as int, open, close, depth as int) == match_fwd(b, cursor as int, open, close, 0),
        decreases len - i,
    {
        let x = bytes[i];
        if x == open {
            depth = depth + 1;
        } else if x == close {
            if depth == 1 {
                assert(match_fwd(b, i as int, open, close, 1) == i);
                return i;
            }
            depth = depth - 1;
        }
        i = i + 1;
    }
    assert(match_fwd(b, len as int, open, close, depth as int) == -1);
    cursor
}

fn match_backward(bytes: &[u8], cursor: usize, open: u8, close: u8) -> (r: usize)
    requires
        cursor < bytes@.len(),
        bytes@[cursor as int] == close,
        open != close,
    ensures
        ({
            let m = match_back(bytes@, cursor as int, open, close, 0);
            r == if m >= 0 {
                m
            } else {
                cursor as int
            }
        }),
        r < bytes@.len(),
{
    let ghost b = bytes@;
    let len = bytes.len();
    assert(match_back(b, cursor as int, open, close, 0) == match_back(b, cursor - 1, open, close, 1));
    let mut depth: usize = 1;
    let mut i: usize = cursor;
    while i > 0
        invariant
            len == b.len(),
            b == bytes@,
            i <= cursor < len,
            1 <= depth <= cursor - i + 1,
            open != close,
            match_back(b, i - 1, open, close, depth as int) == match_back(b, cursor as int, open, close, 0),
        decreases i,
    {
        let x = bytes[i - 1];
        if x == close {
            depth = depth + 1;
        } else if x == open {
            if depth == 1 {
                assert(match_back(b, i - 1, open, close, 1) == i - 1);
                return i - 1;
            }
            depth = depth - 1;
        }
        i = i - 1;
    }
    assert(match_back(b, -1, open, close, depth as int) == -1);
    cursor
}

fn bracket_target(bytes: &[u8], cursor: usize) -> (r: usize)
    requires
        cursor <= bytes@.len(),
    ensures
        r == matching_bracket(bytes@, cursor as int),
        r <= bytes@.len(),
{
    let len = bytes.len();
    if cursor >= len {
        return cursor;
    }
    let ch = bytes[cursor];
    if ch == 40 {
        match_forward(bytes, cursor, 40, 41)
    } else if ch == 41 {
        match_backward(bytes, cursor, 40, 41)
    } else if ch == 91 {
        match_forward(bytes, cursor, 91, 93)
    } else if ch == 93 {
        match_backward(bytes, cursor, 91, 93)
    } else if ch == 123 {
        match_forward(bytes, cursor, 123, 125)
    } else if ch == 125 {
        match_backward(bytes, cursor, 123, 125)
    } else {
        cursor
    }
}

/// The UTF-8 bytes of one character.
proof fn lemma_encode_one(c: char)
    ensures
        encode_utf8(seq![c]) == encode_scalar(c as u32),
{
    lemma_encode_push(Seq::<char>::empty(), c);
    assert(Seq::<char>::empty().push(c) =~= seq![c]);
    assert(encode_utf8(Seq::<char>::empty()) =~= Seq::<u8>::empty());
    assert(Seq::<u8>::empty() + encode_scalar(c as u32) =~= encode_scalar(c as u32));
}

fn find_char_exec(bytes: &[u8], cursor: usize, ch: char, forward: bool) -> (r: Option<usize>)
    requires
        cursor <= bytes@.len(),
    ensures
        r matches Some(q) ==> q <= bytes@.len(),
        forward ==> match r {
            Some(q) => q as int == find_char_target(bytes@, cursor as int, ch),
            None => find_char_target(bytes@, cursor as int, ch) == -1,
        },
        !forward ==> match r {
            Some(q) => q as int == find_char_back_target(bytes@, cursor as int, ch),
            None => find_char_back_target(bytes@, cursor as int, ch) == -1,
        },
{
    let mut tmp = String::new();
    push_char(&mut tmp, ch);
    let e = tmp.as_str().as_bytes();
    proof {
        assert(tmp@ =~= seq![ch]);
        lemma_encode_one(ch);
    }
    if forward {
        let start = next_char_boundary(bytes, cursor);
        first_occurrence_from(bytes, e, start)
    } else {
        let n = e.len();
        if cursor < n {
            assert(find_char_back_target(bytes@, cursor as int, ch) == -1);
            return None;
        }
        last_occurrence_from(bytes, e, cursor - n)
    }
}

fn first_nonblank_exec(content: &str, bytes: &[u8], cursor: usize) -> (r: usize)
    requires
        cursor <= bytes@.len(),
        bytes@ == utf8_bytes(content@),
    ensures
        r == first_nonblank_target(bytes@, content@, cursor as int),
        r <= bytes@.len(),
{
    let ls = line_start_of(bytes, cursor);
    let t = char_table(content);
    let n = t.chars.len();
    let mut k: usize = 0;
    while k < n
        invariant
            t.describes(content@),
            n == content@.len(),
            k <= n,
            ls == line_start(bytes@, cursor as int),
            bytes@ == utf8_bytes(content@),
            first_nonblank(content@, ls as int, k as int) == first_nonblank(content@, ls as int, 0),
        decreases n - k,
    {
        let c = t.chars[k];
        if t.starts[k] >= ls && (!is_whitespace_char(c) || c == '\n') {
            proof {
                lemma_byte_len_take(content@, k as int, content@.len() as int);
                assert(content@.take(content@.len() as int) =~= content@);
            }
            return t.starts[k];
        }
        k = k + 1;
    }
    ls
}

/// Compute the target cursor position for a motion.
pub fn compute_motion_target(motion: &Motion, content: &str, cursor: usize, count: usize) -> (r:
    usize)
    requires
        cursor <= utf8_bytes(content@).len(),
    ensures
        r == motion_target(*motion, utf8_bytes(content@), content@, cursor as int, count as nat),
        r <= utf8_bytes(content@).len(),
{
    let bytes = content.as_bytes();
    match motion {
        Motion::Left => left_target(bytes, cursor, count),
        Motion::Right => right_target(bytes, cursor, count),
        Motion::Up => up_target(bytes, cursor, count),
        Motion::Down => down_target(bytes, cursor, count),
        Motion::WordForward => word_target(WordStep::Start, bytes, cursor, count),
        Motion::WordBackward => word_target(WordStep::Back, bytes, cursor, count),
        Motion::WordEnd => word_target(WordStep::End, bytes, cursor, count),
        Motion::BigWordForward => word_target(WordStep::BigStart, bytes, cursor, count),
        Motion::BigWordBackward => word_target(WordStep::BigBack, bytes, cursor, count),
        Motion::BigWordEnd => word_target(WordStep::BigEnd, bytes, cursor, count),
        Motion::LineStart => line_start_of(bytes, cursor),
        Motion::FirstNonWhitespace => first_nonblank_exec(content, bytes, cursor),
        Motion::LineEnd => line_end_of(bytes, cursor),
        Motion::DocStart => 0,
        Motion::DocEnd => bytes.len(),
        Motion::GotoLine(n) => goto_line_target(bytes, *n),
        Motion::Line => cursor,
        Motion::FindChar(ch) => match find_char_exec(bytes, cursor, *ch, true) {
            Some(q) => q,
            None => cursor,
        },
        Motion::TilChar(ch) => match find_char_exec(bytes, cursor, *ch, true) {
            Some(q) => {
                if q > cursor {
                    prev_char_boundary(bytes, q)
                } else {
                    cursor
                }
            },
            None => cursor,
        },
        Motion::FindCharBackward(ch) => match find_char_exec(bytes, cursor, *ch, false) {
            Some(q) => q,
            None => cursor,
        },
        Motion::TilCharBackward(ch) => match find_char_exec(bytes, cursor, *ch, false) {
            Some(q) => next_char_boundary(bytes, q),
            None => cursor,
        },
        Motion::ParagraphForward => {
            let p = para_fwd_target(bytes, cursor, count);
            let len = bytes.len();
            if p < len {
                p
            } else {
                len
            }
        },
        Motion::ParagraphBackward => para_back_target(bytes, cursor, count),
        Motion::MatchingBracket => bracket_target(bytes, cursor),
        Motion::Indent | Motion::Dedent => cursor,
    }
}

} // verus!
