//! The textual ledger form of the edit log: one six-line record per
//! entry, append-only, lossless for every field the engine consumes.

use vstd::prelude::*;

use crate::history::{log_wf, EditLog, FileOperation, LogEntry, LogEntryView};
use crate::textutil::{chars_to_string, dec_digits, digit_char, push_chars, push_seq, str_to_chars, to_decimal};

verus! {

/// The ledger line of an operation.
pub open spec fn operation_text(op: FileOperation) -> Seq<char> {
    match op {
        FileOperation::Added => "added"@,
        FileOperation::Updated => "updated"@,
        FileOperation::Deleted => "deleted"@,
    }
}

/// The ledger form of an optional text: absent, or marked present.
pub open spec fn option_text(v: Option<Seq<char>>) -> Seq<char> {
    match v {
        Some(s) => "some "@ + s,
        None => "none"@,
    }
}

/// The ledger form of an optional number.
pub open spec fn option_number_text(v: Option<int>) -> Seq<char> {
    match v {
        Some(n) => "some "@ + dec_digits(n),
        None => "none"@,
    }
}

/// One ledger line: its tag, its body, a newline.
pub open spec fn line_text(tag: Seq<char>, body: Seq<char>) -> Seq<char> {
    tag + body + "\n"@
}

/// One record of the ledger: six lines, fixed order.
pub open spec fn record_text(e: LogEntryView) -> Seq<char> {
    line_text("file: "@, e.path) + line_text("version: "@, dec_digits(e.edit.version)) + line_text(
        "operation: "@,
        operation_text(e.edit.operation),
    ) + line_text("author: "@, option_text(e.edit.author)) + line_text(
        "message: "@,
        option_text(e.edit.message),
    ) + line_text("src-cr: "@, option_number_text(e.edit.src_cr))
}

/// The whole ledger: the records in log order.
pub open spec fn log_text(log: Seq<LogEntryView>) -> Seq<char>
    decreases log.len(),
{
    if log.len() == 0 {
        Seq::empty()
    } else {
        log_text(log.drop_last()) + record_text(log.last())
    }
}

/// No field of the entry carries a newline, so the ledger lines stay
/// unambiguous.
pub open spec fn entry_line_safe(e: LogEntryView) -> bool {
    &&& !e.path.contains('\n')
    &&& match e.edit.author {
        Some(s) => !s.contains('\n'),
        None => true,
    }
    &&& match e.edit.message {
        Some(s) => !s.contains('\n'),
        None => true,
    }
    &&& match e.edit.src_cr {
        Some(n) => 0 <= n <= i32::MAX as int,
        None => true,
    }
    &&& e.edit.version <= i32::MAX as int
}

fn push_option_string(out: &mut Vec<char>, v: &Option<String>)
    ensures
        final(out)@ == old(out)@ + option_text(
            match v {
                Some(s) => Some(s@),
                None => None,
            },
        ),
{
    match v {
        Some(s) => {
            push_chars(out, "some ");
            push_chars(out, s.as_str());
            proof {
                assert(out@ =~= old(out)@ + ("some "@ + s@));
            }
        },
        None => {
            push_chars(out, "none");
        },
    }
}

#[verifier::rlimit(100)]
fn push_record(out: &mut Vec<char>, entry: &LogEntry)
    requires
        entry_line_safe(entry@),
        entry@.edit.version >= 1,
    ensures
        final(out)@ == old(out)@ + record_text(entry@),
{
    let ghost e = entry@;
    let ghost out0 = out@;
    push_chars(out, "file: ");
    push_chars(out, entry.path.as_str());
    push_chars(out, "\n");
    let ghost t1 = out0 + line_text("file: "@, e.path);
    proof {
        assert(out@ =~= t1);
    }
    push_chars(out, "version: ");
    let digits = to_decimal(entry.edit.version);
    push_seq(out, &digits);
    push_chars(out, "\n");
    let ghost t2 = t1 + line_text("version: "@, dec_digits(e.edit.version));
    proof {
        assert(out@ =~= t2);
    }
    push_chars(out, "operation: ");
    match entry.edit.operation {
        FileOperation::Added => push_chars(out, "added"),
        FileOperation::Updated => push_chars(out, "updated"),
        FileOperation::Deleted => push_chars(out, "deleted"),
    }
    push_chars(out, "\n");
    let ghost t3 = t2 + line_text("operation: "@, operation_text(e.edit.operation));
    proof {
        assert(out@ =~= t3);
    }
    push_chars(out, "author: ");
    push_option_string(out, &entry.edit.author);
    push_chars(out, "\n");
    let ghost t4 = t3 + line_text("author: "@, option_text(e.edit.author));
    proof {
        assert(out@ =~= t4);
    }
    push_chars(out, "message: ");
    push_option_string(out, &entry.edit.message);
    push_chars(out, "\n");
    let ghost t5 = t4 + line_text("message: "@, option_text(e.edit.message));
    proof {
        assert(out@ =~= t5);
    }
    push_chars(out, "src-cr: ");
    match entry.edit.src_cr {
        Some(n_cr) => {
            push_chars(out, "some ");
            let cr: i32 = if n_cr > i32::MAX as usize {
                proof {
                    assert(false);
                }
                unreached()
            } else {
                n_cr as i32
            };
            let cr_digits = to_decimal(cr);
            push_seq(out, &cr_digits);
        },
        None => {
            push_chars(out, "none");
        },
    }
    push_chars(out, "\n");
    let ghost t6 = t5 + line_text("src-cr: "@, option_number_text(e.edit.src_cr));
    proof {
        assert(out@ =~= t6);
        assert(t6 =~= out0 + record_text(e));
    }
}

/// Writes the whole log as ledger text. Every field is reproduced
/// exactly, so a later parse loses nothing.
pub fn log_to_text(log: &EditLog) -> (r: String)
    requires
        forall|i: int| 0 <= i < log@.len() ==> entry_line_safe(#[trigger] log@[i]),
    ensures
        r@ == log_text(log@),
{
    let mut out: Vec<char> = Vec::new();
    let n = log.len();
    log.wf_facts();
    proof {
        assert(log@.take(0) =~= Seq::<LogEntryView>::empty());
    }
    for i in 0..n
        invariant
            n == log@.len(),
            log_wf(log@),
            forall|j: int| 0 <= j < log@.len() ==> entry_line_safe(#[trigger] log@[j]),
            out@ == log_text(log@.take(i as int)),
    {
        let entry = log.entry_at(i);
        proof {
            assert(log@[i as int].edit.version >= 1);
        }
        push_record(&mut out, entry);
        proof {
            assert(log@.take(i + 1).drop_last() =~= log@.take(i as int));
            assert(log@.take(i + 1).last() == log@[i as int]);
        }
    }
    proof {
        assert(log@.take(n as int) =~= log@);
    }
    chars_to_string(&out)
}

/// A well-shaped ledger line stands at this position: the tag, a body,
/// a newline, with no newline inside tag or body.
pub open spec fn line_at(chars: Seq<char>, from: int, tag: Seq<char>, body: Seq<char>) -> bool {
    &&& 0 <= from
    &&& from + tag.len() + body.len() + 1 <= chars.len()
    &&& chars.subrange(from, from + tag.len() + body.len() + 1) == line_text(tag, body)
    &&& forall|j: int| 0 <= j < tag.len() ==> tag[j] != '\n'
    &&& !body.contains('\n')
}

proof fn lemma_line_at_facts(chars: Seq<char>, from: int, tag: Seq<char>, body: Seq<char>)
    requires
        line_at(chars, from, tag, body),
    ensures
        chars[from + tag.len() + body.len()] == '\n',
        forall|j: int| from <= j < from + tag.len() + body.len() ==> chars[j] != '\n',
        chars.subrange(from, from + tag.len()) == tag,
        chars.subrange(from + tag.len(), from + tag.len() + body.len()) == body,
{
    reveal_strlit("\n");
    let line = line_text(tag, body);
    let tl = tag.len() as int;
    let bl = body.len() as int;
    assert("\n"@.len() == 1);
    assert("\n"@[0] == '\n');
    assert(line.len() == tl + bl + 1);
    assert(chars.subrange(from, from + tl + bl + 1)[tl + bl] == chars[from + tl + bl]);
    assert(line[tl + bl] == '\n');
    assert forall|j: int| from <= j < from + tl + bl implies chars[j] != '\n' by {
        assert(chars.subrange(from, from + tl + bl + 1)[j - from] == chars[j]);
        if j - from < tl {
            assert(line[j - from] == tag[j - from]);
        } else {
            assert(line[j - from] == body[j - from - tl]);
            assert(!body.contains('\n'));
            if body[j - from - tl] == '\n' {
                assert(body.contains('\n'));
            }
        }
    }
    assert(chars.subrange(from, from + tl) =~= tag) by {
        assert forall|j: int| 0 <= j < tl implies chars.subrange(from, from + tl)[j] == tag[j] by {
            assert(chars.subrange(from, from + tl + bl + 1)[j] == chars[from + j]);
            assert(line[j] == tag[j]);
        }
    }
    assert(chars.subrange(from + tl, from + tl + bl) =~= body) by {
        assert forall|j: int| 0 <= j < bl implies chars.subrange(from + tl, from + tl + bl)[j]
            == body[j] by {
            assert(chars.subrange(from, from + tl + bl + 1)[tl + j] == chars[from + tl + j]);
            assert(line[tl + j] == body[j]);
        }
    }
}

/// One first newline position: two of them coincide.
proof fn lemma_first_newline_unique(chars: Seq<char>, from: int, a: int, b: int)
    requires
        from <= a < chars.len(),
        from <= b < chars.len(),
        chars[a] == '\n',
        chars[b] == '\n',
        forall|j: int| from <= j < a ==> chars[j] != '\n',
        forall|j: int| from <= j < b ==> chars[j] != '\n',
    ensures
        a == b,
{
}

fn find_newline(chars: &Vec<char>, from: usize) -> (r: Option<usize>)
    requires
        from <= chars@.len(),
    ensures
        match r {
            Some(i) => from <= i < chars@.len() && chars@[i as int] == '\n' && (forall|j: int|
                from <= j < i ==> chars@[j] != '\n'),
            None => forall|j: int| from <= j < chars@.len() ==> chars@[j] != '\n',
        },
{
    let n = chars.len();
    let mut i = from;
    while i < n
        invariant
            from <= i <= n,
            n == chars@.len(),
            forall|j: int| from <= j < i ==> chars@[j] != '\n',
        decreases n - i,
    {
        if chars[i] == '\n' {
            return Some(i);
        }
        i = i + 1;
    }
    None
}

fn starts_with_tag(chars: &Vec<char>, from: usize, to: usize, tag: &str) -> (r: bool)
    requires
        from <= to <= chars@.len(),
    ensures
        r == (to - from >= tag@.len() && chars@.subrange(
            from as int,
            from + tag@.len(),
        ) == tag@),
{
    let tag_chars = str_to_chars(tag);
    let tn = tag_chars.len();
    if to - from < tn {
        return false;
    }
    for k in 0..tn
        invariant
            tn == tag_chars@.len(),
            tag_chars@ == tag@,
            from + tn <= to <= chars@.len(),
            forall|j: int| 0 <= j < k ==> chars@[from + j] == tag@[j],
    {
        if chars[from + k] != tag_chars[k] {
            proof {
                assert(chars@.subrange(from as int, from + tag@.len())[k as int] != tag@[k as int]);
            }
            return false;
        }
    }
    proof {
        assert(chars@.subrange(from as int, from + tag@.len()) =~= tag@);
    }
    true
}

fn copy_slice(chars: &Vec<char>, from: usize, to: usize) -> (r: Vec<char>)
    requires
        from <= to <= chars@.len(),
    ensures
        r@ == chars@.subrange(from as int, to as int),
{
    let mut r: Vec<char> = Vec::new();
    for k in from..to
        invariant
            from <= k <= to <= chars@.len(),
            r@ == chars@.subrange(from as int, k as int),
    {
        r.push(chars[k]);
        proof {
            assert(r@ =~= chars@.subrange(from as int, k + 1));
        }
    }
    r
}

/// Reads a canonically written non-negative decimal: digits only, no
/// leading zero unless the number is zero itself.
fn parse_decimal_slice(chars: &Vec<char>, from: usize, to: usize) -> (r: Option<i32>)
    requires
        from <= to <= chars@.len(),
    ensures
        r matches Some(n) ==> n >= 0 && dec_digits(n as int) == chars@.subrange(
            from as int,
            to as int,
        ),
        forall|m: int|
            0 <= m <= i32::MAX && chars@.subrange(from as int, to as int) == dec_digits(m)
                ==> (r matches Some(n) && n as int == m),
{
    if to == from {
        proof {
            assert forall|m: int|
                0 <= m <= i32::MAX && chars@.subrange(from as int, to as int) == dec_digits(
                    m,
                ) implies false by {
                crate::textutil::lemma_dec_digits_shape(m);
            }
        }
        return None;
    }
    if to - from > 1 && chars[from] == '0' {
        proof {
            assert forall|m: int|
                0 <= m <= i32::MAX && chars@.subrange(from as int, to as int) == dec_digits(
                    m,
                ) implies false by {
                crate::textutil::lemma_dec_digits_shape(m);
                assert(dec_digits(m).len() > 1);
                assert(chars@.subrange(from as int, to as int)[0] == chars@[from as int]);
            }
        }
        return None;
    }
    let ghost s = chars@.subrange(from as int, to as int);
    let mut acc: i32 = 0;
    let mut k = from;
    while k < to
        invariant
            from <= k <= to <= chars@.len(),
            s == chars@.subrange(from as int, to as int),
            to - from > 1 ==> chars@[from as int] != '0',
            acc >= 0,
            k == from ==> acc == 0,
            k > from ==> dec_digits(acc as int) == s.take(k - from),
            k > from && k < to ==> acc >= 1,
        decreases to - k,
    {
        let c = chars[k];
        let code = c as u32;
        if code < 48 || code > 57 {
            proof {
                assert forall|m: int|
                    0 <= m <= i32::MAX && s == dec_digits(m) implies false by {
                    crate::textutil::lemma_dec_digits_shape(m);
                    assert(s[k - from] == c);
                    assert(48 <= dec_digits(m)[k - from] as u32 <= 57);
                }
            }
            return None;
        }
        let d: i32 = (code - 48) as i32;
        if acc > (i32::MAX - d) / 10 {
            proof {
                assert forall|m: int|
                    0 <= m <= i32::MAX && s == dec_digits(m) implies false by {
                    crate::textutil::lemma_dec_digits_shape(m);
                    if k == from {
                        assert((i32::MAX - d) / 10 >= 0);
                    } else {
                        crate::textutil::lemma_dec_digits_prefix(m, k - from);
                        let v = choose|v: int|
                            0 <= v <= m && #[trigger] dec_digits(v) == dec_digits(m).take(
                                k - from,
                            );
                        assert(dec_digits(m).take(k - from) =~= s.take(k - from));
                        crate::textutil::lemma_dec_digits_injective(acc as int, v);
                        crate::textutil::lemma_dec_digits_prefix(m, k - from + 1);
                        let w = choose|w: int|
                            0 <= w <= m && #[trigger] dec_digits(w) == dec_digits(m).take(
                                k - from + 1,
                            );
                        crate::textutil::lemma_dec_digits_shape(w);
                        assert(dec_digits(w).len() == k - from + 1 >= 2);
                        assert(w >= 10);
                        assert(dec_digits(w) == dec_digits(w / 10).push(digit_char(w % 10)));
                        assert(dec_digits(w / 10) =~= dec_digits(w).drop_last());
                        assert(dec_digits(m).take(k - from + 1) =~= s.take(k - from + 1));
                        assert(s.take(k - from + 1).drop_last() =~= s.take(k - from));
                        assert(dec_digits(w / 10) == dec_digits(acc as int));
                        crate::textutil::lemma_dec_digits_injective(w / 10, acc as int);
                        assert(dec_digits(w).last() == digit_char(w % 10));
                        assert(s.take(k - from + 1).last() == s[k - from]);
                        assert(digit_char(d as int) == c) by {
                            vstd::utf8::char_u32_cast(c, code);
                            assert(((48 + d) as u8) as int == code as int);
                            assert(((48 + d) as u8) as char == (code as char));
                        }
                        assert(digit_char(w % 10) == digit_char(d as int));
                        crate::textutil::lemma_digit_char(w % 10);
                        crate::textutil::lemma_digit_char(d as int);
                        assert(w % 10 == d);
                        assert(w == 10 * (w / 10) + w % 10);
                        assert(w == 10 * (acc as int) + d);
                        assert(10 * (acc as int) + d <= i32::MAX);
                        assert(acc as int <= (i32::MAX - d) / 10);
                    }
                }
            }
            return None;
        }
        let ghost acc0 = acc as int;
        acc = acc * 10 + d;
        proof {
            assert(digit_char(d as int) == c) by {
                assert(48 <= code <= 57);
                vstd::utf8::char_u32_cast(c, code);
                assert((code as char) == c);
                assert(((48 + d) as u8) as int == code as int);
                assert(((48 + d) as u8) as char == (code as char));
            }
            if k == from {
                assert(acc as int == d);
                assert(dec_digits(acc as int) =~= s.take(1));
            } else {
                assert(acc as int == 10 * acc0 + d);
                assert(acc as int >= 10);
                assert((acc as int) / 10 == acc0 && (acc as int) % 10 == d);
                assert(dec_digits(acc as int) == dec_digits(acc0).push(digit_char(d as int)));
                assert(dec_digits(acc as int) =~= s.take(k - from + 1));
            }
            if k + 1 < to {
                assert(s[0] != '0');
                assert(acc >= 1) by {
                    if acc == 0 {
                        assert(dec_digits(0) == seq![digit_char(0)]);
                        assert(s.take(k - from + 1)[0] == digit_char(0));
                        assert(s[0] == '0');
                    }
                }
            }
        }
        k = k + 1;
    }
    proof {
        assert(s.take(to - from) =~= s);
        assert forall|m: int| 0 <= m <= i32::MAX && s == dec_digits(m) implies acc as int
            == m by {
            crate::textutil::lemma_dec_digits_injective(acc as int, m);
        }
    }
    Some(acc)
}

fn parse_text_line(chars: &Vec<char>, from: usize, tag: &str) -> (r: Option<(Vec<char>, usize)>)
    requires
        from <= chars@.len(),
    ensures
        r matches Some((body, nl)) ==> from <= nl < chars@.len() && chars@.subrange(
            from as int,
            nl + 1,
        ) == line_text(tag@, body@) && pos_after(from as int, nl + 1),
        forall|b: Seq<char>| #[trigger]
            line_at(chars@, from as int, tag@, b) ==> (r matches Some((body, nl)) && body@ == b
                && nl == from + tag@.len() + b.len()),
{
    let nl = match find_newline(chars, from) {
        Some(i) => i,
        None => {
            proof {
                assert forall|b: Seq<char>| #[trigger]
                    line_at(chars@, from as int, tag@, b) implies false by {
                    lemma_line_at_facts(chars@, from as int, tag@, b);
                }
            }
            return None;
        },
    };
    if !starts_with_tag(chars, from, nl, tag) {
        proof {
            assert forall|b: Seq<char>| #[trigger]
                line_at(chars@, from as int, tag@, b) implies false by {
                lemma_line_at_facts(chars@, from as int, tag@, b);
                lemma_first_newline_unique(
                    chars@,
                    from as int,
                    nl as int,
                    from + tag@.len() + b.len(),
                );
            }
        }
        return None;
    }
    let tn = str_to_chars(tag).len();
    let body = copy_slice(chars, from + tn, nl);
    proof {
        assert(chars@.subrange(from as int, nl + 1) =~= line_text(tag@, body@)) by {
            assert(chars@.subrange(from as int, from + tag@.len()) == tag@);
            assert(body@ == chars@.subrange(from + tag@.len(), nl as int));
            assert(chars@[nl as int] == '\n');
            assert("\n"@ =~= seq!['\n']) by {
                reveal_strlit("\n");
            }
        }
        assert forall|b: Seq<char>| #[trigger]
            line_at(chars@, from as int, tag@, b) implies body@ == b && nl == from + tag@.len()
            + b.len() by {
            lemma_line_at_facts(chars@, from as int, tag@, b);
            lemma_first_newline_unique(
                chars@,
                from as int,
                nl as int,
                from + tag@.len() + b.len(),
            );
        }
    }
    Some((body, nl))
}

/// The parser moved strictly forward.
pub open spec fn pos_after(from: int, to: int) -> bool {
    from < to
}

fn parse_number_line(chars: &Vec<char>, from: usize, tag: &str) -> (r: Option<(i32, usize)>)
    requires
        from <= chars@.len(),
    ensures
        r matches Some((v, nl)) ==> from <= nl < chars@.len() && v >= 0 && chars@.subrange(
            from as int,
            nl + 1,
        ) == line_text(tag@, dec_digits(v as int)) && pos_after(from as int, nl + 1),
        forall|m: int|
            0 <= m <= i32::MAX && #[trigger] line_at(chars@, from as int, tag@, dec_digits(m))
                ==> (r matches Some((v, nl)) && v as int == m && nl == from + tag@.len()
                + dec_digits(m).len()),
{
    let nl = match find_newline(chars, from) {
        Some(i) => i,
        None => {
            proof {
                assert forall|m: int|
                    0 <= m <= i32::MAX && #[trigger] line_at(
                        chars@,
                        from as int,
                        tag@,
                        dec_digits(m),
                    ) implies false by {
                    lemma_line_at_facts(chars@, from as int, tag@, dec_digits(m));
                }
            }
            return None;
        },
    };
    if !starts_with_tag(chars, from, nl, tag) {
        proof {
            assert forall|m: int|
                0 <= m <= i32::MAX && #[trigger] line_at(
                    chars@,
                    from as int,
                    tag@,
                    dec_digits(m),
                ) implies false by {
                lemma_line_at_facts(chars@, from as int, tag@, dec_digits(m));
                lemma_first_newline_unique(
                    chars@,
                    from as int,
                    nl as int,
                    from + tag@.len() + dec_digits(m).len(),
                );
            }
        }
        return None;
    }
    let tn = str_to_chars(tag).len();
    let ghost digits_ok = forall|m: int|
        0 <= m <= i32::MAX && #[trigger] line_at(chars@, from as int, tag@, dec_digits(m))
            ==> chars@.subrange(from + tag@.len(), nl as int) == dec_digits(m);
    proof {
        assert forall|m: int|
            0 <= m <= i32::MAX && #[trigger] line_at(chars@, from as int, tag@, dec_digits(m))
                implies chars@.subrange(from + tag@.len(), nl as int) == dec_digits(m) by {
            lemma_line_at_facts(chars@, from as int, tag@, dec_digits(m));
            lemma_first_newline_unique(
                chars@,
                from as int,
                nl as int,
                from + tag@.len() + dec_digits(m).len(),
            );
        }
    }
    let v = match parse_decimal_slice(chars, from + tn, nl) {
        Some(v) => v,
        None => {
            return None;
        },
    };
    proof {
        assert(chars@.subrange(from as int, nl + 1) =~= line_text(tag@, dec_digits(v as int))) by {
            assert(chars@.subrange(from as int, from + tag@.len()) == tag@);
            assert(dec_digits(v as int) == chars@.subrange(from + tag@.len(), nl as int));
            assert(chars@[nl as int] == '\n');
            assert("\n"@ =~= seq!['\n']) by {
                reveal_strlit("\n");
            }
        }
    }
    Some((v, nl))
}

/// No entry of the log carries a newline or an oversized provenance
/// number, so the whole ledger is unambiguous.
pub open spec fn entries_line_safe(l: Seq<LogEntryView>) -> bool {
    forall|i: int| 0 <= i < l.len() ==> entry_line_safe(#[trigger] l[i])
}

/// One more record extends the ledger by exactly that record's text.
proof fn lemma_log_text_step(l: Seq<LogEntryView>, j: int)
    requires
        0 <= j < l.len(),
    ensures
        log_text(l.take(j + 1)) == log_text(l.take(j)) + record_text(l[j]),
{
    assert(l.take(j + 1).drop_last() =~= l.take(j));
    assert(l.take(j + 1).last() == l[j]);
}

/// The ledger of a front part of the log is a front part of the whole
/// ledger.
proof fn lemma_log_text_prefix(l: Seq<LogEntryView>, j: int)
    requires
        0 <= j <= l.len(),
    ensures
        log_text(l.take(j)).len() <= log_text(l).len(),
        log_text(l).take(log_text(l.take(j)).len() as int) == log_text(l.take(j)),
    decreases l.len() - j,
{
    if j == l.len() {
        assert(l.take(j) =~= l);
        assert(log_text(l).take(log_text(l).len() as int) =~= log_text(l));
    } else {
        lemma_log_text_prefix(l, j + 1);
        lemma_log_text_step(l, j);
        let a = log_text(l.take(j));
        let b = log_text(l.take(j + 1));
        assert(b.take(a.len() as int) =~= a);
        assert(log_text(l).take(a.len() as int) =~= log_text(l).take(b.len() as int).take(
            a.len() as int,
        ));
    }
}

/// The ledger tags and markers carry no newline.
proof fn lemma_tags_newline_free()
    ensures
        forall|j: int| 0 <= j < "file: "@.len() ==> (#[trigger] "file: "@[j]) != '\n',
        forall|j: int| 0 <= j < "version: "@.len() ==> (#[trigger] "version: "@[j]) != '\n',
        forall|j: int| 0 <= j < "operation: "@.len() ==> (#[trigger] "operation: "@[j]) != '\n',
        forall|j: int| 0 <= j < "author: "@.len() ==> (#[trigger] "author: "@[j]) != '\n',
        forall|j: int| 0 <= j < "message: "@.len() ==> (#[trigger] "message: "@[j]) != '\n',
        forall|j: int| 0 <= j < "src-cr: "@.len() ==> (#[trigger] "src-cr: "@[j]) != '\n',
        !"none"@.contains('\n'),
        !"some "@.contains('\n'),
        !"added"@.contains('\n'),
        !"updated"@.contains('\n'),
        !"deleted"@.contains('\n'),
{
    reveal_strlit("file: ");
    reveal_strlit("version: ");
    reveal_strlit("operation: ");
    reveal_strlit("author: ");
    reveal_strlit("message: ");
    reveal_strlit("src-cr: ");
    reveal_strlit("none");
    reveal_strlit("some ");
    reveal_strlit("added");
    reveal_strlit("updated");
    reveal_strlit("deleted");
}

/// The operation line decides the operation.
proof fn lemma_operation_text_injective(a: FileOperation, b: FileOperation)
    requires
        operation_text(a) == operation_text(b),
    ensures
        a == b,
{
    reveal_strlit("added");
    reveal_strlit("updated");
    reveal_strlit("deleted");
    assert("added"@.len() == 5);
    assert("updated"@.len() == 7);
    assert("deleted"@.len() == 7);
    assert("updated"@[0] == 'u');
    assert("deleted"@[0] == 'd');
}

/// The body of an operation line carries no newline.
proof fn lemma_operation_text_free(op: FileOperation)
    ensures
        !operation_text(op).contains('\n'),
{
    lemma_tags_newline_free();
}

/// The body of an option line of a newline-free text carries no newline.
proof fn lemma_option_text_free(v: Option<Seq<char>>)
    requires
        v matches Some(sv) ==> !sv.contains('\n'),
    ensures
        !option_text(v).contains('\n'),
{
    lemma_tags_newline_free();
    match v {
        Some(sv) => {
            if option_text(v).contains('\n') {
                let j = choose|j: int|
                    0 <= j < option_text(v).len() && option_text(v)[j] == '\n';
                if j < "some "@.len() {
                    assert("some "@.contains('\n'));
                } else {
                    assert(sv[j - "some "@.len()] == '\n');
                    assert(sv.contains('\n'));
                }
            }
        },
        None => {},
    }
}

/// The body of an optional-number line carries no newline.
proof fn lemma_option_number_text_free(v: Option<int>)
    requires
        v matches Some(m) ==> m >= 0,
    ensures
        !option_number_text(v).contains('\n'),
{
    lemma_tags_newline_free();
    match v {
        Some(m) => {
            crate::textutil::lemma_dec_digits_shape(m);
            if option_number_text(v).contains('\n') {
                let j = choose|j: int|
                    0 <= j < option_number_text(v).len() && option_number_text(v)[j] == '\n';
                if j < "some "@.len() {
                    assert("some "@.contains('\n'));
                } else {
                    assert(dec_digits(m)[j - "some "@.len()] == '\n');
                }
            }
        },
        None => {},
    }
}

/// The length of one ledger line.
pub open spec fn line_len(tag: Seq<char>, body: Seq<char>) -> int {
    tag.len() + body.len() + 1int
}

/// Where each line of a record under the cursor stands, and that each is
/// well shaped.
#[verifier::rlimit(100)]
proof fn lemma_record_lines(chars: Seq<char>, pos: int, e: LogEntryView)
    requires
        0 <= pos,
        entry_line_safe(e),
        e.edit.version >= 1,
        pos + record_text(e).len() <= chars.len(),
        chars.subrange(pos, pos + record_text(e).len()) == record_text(e),
    ensures
        ({
            let o2 = pos + line_len("file: "@, e.path);
            let o3 = o2 + line_len("version: "@, dec_digits(e.edit.version));
            let o4 = o3 + line_len("operation: "@, operation_text(e.edit.operation));
            let o5 = o4 + line_len("author: "@, option_text(e.edit.author));
            let o6 = o5 + line_len("message: "@, option_text(e.edit.message));
            let o7 = o6 + line_len("src-cr: "@, option_number_text(e.edit.src_cr));
            &&& record_text(e).len() == o7 - pos
            &&& line_at(chars, pos, "file: "@, e.path)
            &&& line_at(chars, o2, "version: "@, dec_digits(e.edit.version))
            &&& line_at(chars, o3, "operation: "@, operation_text(e.edit.operation))
            &&& line_at(chars, o4, "author: "@, option_text(e.edit.author))
            &&& line_at(chars, o5, "message: "@, option_text(e.edit.message))
            &&& line_at(chars, o6, "src-cr: "@, option_number_text(e.edit.src_cr))
        }),
{
    lemma_tags_newline_free();
    crate::textutil::lemma_dec_digits_shape(e.edit.version);
    lemma_operation_text_free(e.edit.operation);
    lemma_option_text_free(e.edit.author);
    lemma_option_text_free(e.edit.message);
    lemma_option_number_text_free(e.edit.src_cr);
    reveal_strlit("\n");
    let l1 = line_text("file: "@, e.path);
    let l2 = line_text("version: "@, dec_digits(e.edit.version));
    let l3 = line_text("operation: "@, operation_text(e.edit.operation));
    let l4 = line_text("author: "@, option_text(e.edit.author));
    let l5 = line_text("message: "@, option_text(e.edit.message));
    let l6 = line_text("src-cr: "@, option_number_text(e.edit.src_cr));
    let rec = record_text(e);
    assert(rec =~= l1 + l2 + l3 + l4 + l5 + l6);
    assert(rec.len() == l1.len() + l2.len() + l3.len() + l4.len() + l5.len() + l6.len());
    let o2 = pos + l1.len();
    let o3 = o2 + l2.len();
    let o4 = o3 + l3.len();
    let o5 = o4 + l4.len();
    let o6 = o5 + l5.len();
    assert forall|j: int| 0 <= j < rec.len() implies chars[pos + j] == rec[j] by {
        assert(chars.subrange(pos, pos + rec.len())[j] == chars[pos + j]);
    }
    let p2 = l1 + l2;
    let p3 = p2 + l3;
    let p4 = p3 + l4;
    let p5 = p4 + l5;
    let p6 = p5 + l6;
    assert(rec == p6);
    assert forall|j: int| 0 <= j < l1.len() implies rec[j] == l1[j] by {
        assert(p6[j] == p5[j]);
        assert(p5[j] == p4[j]);
        assert(p4[j] == p3[j]);
        assert(p3[j] == p2[j]);
        assert(p2[j] == l1[j]);
    }
    assert forall|j: int| 0 <= j < l2.len() implies rec[o2 - pos + j] == l2[j] by {
        let x = o2 - pos + j;
        assert(p6[x] == p5[x]);
        assert(p5[x] == p4[x]);
        assert(p4[x] == p3[x]);
        assert(p3[x] == p2[x]);
        assert(p2[x] == l2[j]);
    }
    assert forall|j: int| 0 <= j < l3.len() implies rec[o3 - pos + j] == l3[j] by {
        let x = o3 - pos + j;
        assert(p6[x] == p5[x]);
        assert(p5[x] == p4[x]);
        assert(p4[x] == p3[x]);
        assert(p3[x] == l3[j]);
    }
    assert forall|j: int| 0 <= j < l4.len() implies rec[o4 - pos + j] == l4[j] by {
        let x = o4 - pos + j;
        assert(p6[x] == p5[x]);
        assert(p5[x] == p4[x]);
        assert(p4[x] == l4[j]);
    }
    assert forall|j: int| 0 <= j < l5.len() implies rec[o5 - pos + j] == l5[j] by {
        let x = o5 - pos + j;
        assert(p6[x] == p5[x]);
        assert(p5[x] == l5[j]);
    }
    assert forall|j: int| 0 <= j < l6.len() implies rec[o6 - pos + j] == l6[j] by {
        let x = o6 - pos + j;
        assert(p6[x] == l6[j]);
    }
    assert(chars.subrange(pos, pos + l1.len()) =~= l1);
    assert(chars.subrange(o2, o2 + l2.len()) =~= l2);
    assert(chars.subrange(o3, o3 + l3.len()) =~= l3);
    assert(chars.subrange(o4, o4 + l4.len()) =~= l4);
    assert(chars.subrange(o5, o5 + l5.len()) =~= l5);
    assert(chars.subrange(o6, o6 + l6.len()) =~= l6);
}

/// Under the cursor of a partly read ledger stands the text of the next
/// record of any log the whole text serializes.
proof fn lemma_record_at_cursor(
    chars: Seq<char>,
    l: Seq<LogEntryView>,
    parsed: Seq<LogEntryView>,
    pos: int,
)
    requires
        log_wf(l),
        entries_line_safe(l),
        log_text(l) == chars,
        parsed.len() <= l.len(),
        parsed == l.take(parsed.len() as int),
        chars.take(pos) == log_text(parsed),
        0 <= pos < chars.len(),
    ensures
        parsed.len() < l.len(),
        entry_line_safe(l[parsed.len() as int]),
        l[parsed.len() as int].edit.version >= 1,
        pos + record_text(l[parsed.len() as int]).len() <= chars.len(),
        chars.subrange(pos, pos + record_text(l[parsed.len() as int]).len()) == record_text(
            l[parsed.len() as int],
        ),
{
    let k = parsed.len() as int;
    assert(pos == log_text(parsed).len());
    if k == l.len() {
        assert(parsed =~= l);
        assert(pos == chars.len());
    }
    assert(k < l.len());
    lemma_log_text_step(l, k);
    lemma_log_text_prefix(l, k + 1);
    let a = log_text(l.take(k));
    let b = log_text(l.take(k + 1));
    assert(a == log_text(parsed));
    assert(b == a + record_text(l[k]));
    assert(chars.take(b.len() as int) == b);
    assert(chars.subrange(pos, pos + record_text(l[k]).len()) =~= record_text(l[k])) by {
        assert forall|j: int| 0 <= j < record_text(l[k]).len() implies chars.subrange(
            pos,
            pos + record_text(l[k]).len(),
        )[j] == record_text(l[k])[j] by {
            assert(chars.take(b.len() as int)[pos + j] == chars[pos + j]);
            assert(b[pos + j] == record_text(l[k])[j]);
        }
    }
}

/// Under the cursor stand the six well-shaped lines of the next record
/// of any log the whole text serializes.
proof fn lemma_cursor_lines(
    chars: Seq<char>,
    l: Seq<LogEntryView>,
    parsed: Seq<LogEntryView>,
    pos: int,
)
    requires
        log_wf(l),
        entries_line_safe(l),
        log_text(l) == chars,
        parsed.len() <= l.len(),
        parsed == l.take(parsed.len() as int),
        chars.take(pos) == log_text(parsed),
        0 <= pos < chars.len(),
    ensures
        parsed.len() < l.len(),
        ({
            let e = l[parsed.len() as int];
            let o2 = pos + line_len("file: "@, e.path);
            let o3 = o2 + line_len("version: "@, dec_digits(e.edit.version));
            let o4 = o3 + line_len("operation: "@, operation_text(e.edit.operation));
            let o5 = o4 + line_len("author: "@, option_text(e.edit.author));
            let o6 = o5 + line_len("message: "@, option_text(e.edit.message));
            &&& 1 <= e.edit.version <= i32::MAX as int
            &&& entry_line_safe(e)
            &&& line_at(chars, pos, "file: "@, e.path)
            &&& line_at(chars, o2, "version: "@, dec_digits(e.edit.version))
            &&& line_at(chars, o3, "operation: "@, operation_text(e.edit.operation))
            &&& line_at(chars, o4, "author: "@, option_text(e.edit.author))
            &&& line_at(chars, o5, "message: "@, option_text(e.edit.message))
            &&& line_at(chars, o6, "src-cr: "@, option_number_text(e.edit.src_cr))
        }),
{
    let k = parsed.len() as int;
    lemma_record_at_cursor(chars, l, parsed, pos);
    assert(entry_line_safe(l[k]));
    lemma_record_lines(chars, pos, l[k]);
}

/// One whole record stands at this position: six well-shaped lines for
/// an entry the ledger can carry.
pub open spec fn record_at(chars: Seq<char>, pos: int, e: LogEntryView) -> bool {
    &&& 0 <= pos
    &&& entry_line_safe(e)
    &&& 1 <= e.edit.version <= i32::MAX as int
    &&& pos + record_text(e).len() <= chars.len()
    &&& chars.subrange(pos, pos + record_text(e).len()) == record_text(e)
}

/// The first three well-shaped lines of a record stand at this position.
spec fn head_at(chars: Seq<char>, pos: int, pa: Seq<char>, ver: int, op: FileOperation) -> bool {
    &&& 1 <= ver <= i32::MAX as int
    &&& line_at(chars, pos, "file: "@, pa)
    &&& line_at(chars, pos + line_len("file: "@, pa), "version: "@, dec_digits(ver))
    &&& line_at(
        chars,
        pos + line_len("file: "@, pa) + line_len("version: "@, dec_digits(ver)),
        "operation: "@,
        operation_text(op),
    )
}

/// The last three well-shaped lines of a record stand at this position.
spec fn tail_at(
    chars: Seq<char>,
    pos: int,
    va: Option<Seq<char>>,
    vm: Option<Seq<char>>,
    vc: Option<int>,
) -> bool {
    &&& (match vc {
        Some(m) => 0 <= m <= i32::MAX as int,
        None => true,
    })
    &&& line_at(chars, pos, "author: "@, option_text(va))
    &&& line_at(chars, pos + line_len("author: "@, option_text(va)), "message: "@, option_text(vm))
    &&& line_at(
        chars,
        pos + line_len("author: "@, option_text(va)) + line_len(
            "message: "@,
            option_text(vm),
        ),
        "src-cr: "@,
        option_number_text(vc),
    )
}

#[verifier::rlimit(100)]
fn parse_record_head(chars: &Vec<char>, from: usize) -> (r: Option<((String, i32, FileOperation), usize)>)
    requires
        from <= chars@.len(),
    ensures
        r matches Some(((path, version, op), p4)) ==> from < p4 <= chars@.len() && version >= 1
            && chars@.subrange(from as int, p4 as int) == line_text("file: "@, path@) + line_text(
            "version: "@,
            dec_digits(version as int),
        ) + line_text("operation: "@, operation_text(op)),
        forall|pa: Seq<char>, ver: int, op2: FileOperation| #[trigger]
            head_at(chars@, from as int, pa, ver, op2) ==> (r matches Some(
                ((path, version, op), p4),
            ) && path@ == pa && version as int == ver && op == op2 && p4 as int == from + line_len(
                "file: "@,
                pa,
            ) + line_len("version: "@, dec_digits(ver)) + line_len(
                "operation: "@,
                operation_text(op2),
            )),
{
    let _ = chars.len();
    let (path_chars, nl1) = match parse_text_line(chars, from, "file: ") {
        Some(pair) => pair,
        None => {
            return None;
        },
    };
    let path = chars_to_string(&path_chars);
    let ghost line1 = chars@.subrange(from as int, nl1 + 1);
    let pos2 = nl1 + 1;
    let (version, nl2) = match parse_number_line(chars, pos2, "version: ") {
        Some(pair) => pair,
        None => {
            proof {
                assert forall|pa: Seq<char>, ver: int, op2: FileOperation| #[trigger]
                    head_at(chars@, from as int, pa, ver, op2) implies false by {
                    assert(pos2 as int == from + line_len("file: "@, pa));
                }
            }
            return None;
        },
    };
    if version < 1 {
        proof {
            assert forall|pa: Seq<char>, ver: int, op2: FileOperation| #[trigger]
                head_at(chars@, from as int, pa, ver, op2) implies false by {
                assert(pos2 as int == from + line_len("file: "@, pa));
                assert(version as int == ver);
            }
        }
        return None;
    }
    let ghost line2 = chars@.subrange(pos2 as int, nl2 + 1);
    let pos3 = nl2 + 1;
    let (op_chars, nl3) = match parse_text_line(chars, pos3, "operation: ") {
        Some(pair) => pair,
        None => {
            proof {
                assert forall|pa: Seq<char>, ver: int, op2: FileOperation| #[trigger]
                    head_at(chars@, from as int, pa, ver, op2) implies false by {
                    assert(pos2 as int == from + line_len("file: "@, pa));
                    assert(pos3 as int == pos2 + line_len("version: "@, dec_digits(ver)));
                }
            }
            return None;
        },
    };
    let operation = match parse_operation(&op_chars) {
        Some(op) => op,
        None => {
            proof {
                assert forall|pa: Seq<char>, ver: int, op2: FileOperation| #[trigger]
                    head_at(chars@, from as int, pa, ver, op2) implies false by {
                    assert(pos2 as int == from + line_len("file: "@, pa));
                    assert(pos3 as int == pos2 + line_len("version: "@, dec_digits(ver)));
                    assert(op_chars@ == operation_text(op2));
                }
            }
            return None;
        },
    };
    let ghost line3 = chars@.subrange(pos3 as int, nl3 + 1);
    let p4 = nl3 + 1;
    proof {
        assert(chars@.subrange(from as int, p4 as int) =~= line1 + line2 + line3);
        assert forall|pa: Seq<char>, ver: int, op2: FileOperation| #[trigger]
            head_at(chars@, from as int, pa, ver, op2) implies path@ == pa && version as int == ver
            && operation == op2 && p4 as int == from + line_len("file: "@, pa) + line_len(
            "version: "@,
            dec_digits(ver),
        ) + line_len("operation: "@, operation_text(op2)) by {
            assert(pos2 as int == from + line_len("file: "@, pa));
            assert(version as int == ver);
            assert(pos3 as int == pos2 + line_len("version: "@, dec_digits(ver)));
            assert(op_chars@ == operation_text(op2));
            lemma_operation_text_injective(operation, op2);
        }
    }
    Some(((path, version, operation), p4))
}

#[verifier::rlimit(100)]
fn parse_record_tail(chars: &Vec<char>, from: usize) -> (r: Option<
    ((Option<String>, Option<String>, Option<usize>), usize),
>)
    requires
        from <= chars@.len(),
    ensures
        r matches Some(((author, message, src_cr), p2)) ==> from < p2 <= chars@.len() && (
        src_cr matches Some(m) ==> m <= i32::MAX as usize) && chars@.subrange(
            from as int,
            p2 as int,
        ) == line_text(
            tag_author(),
            option_text(
                match author {
                    Some(s) => Some(s@),
                    None => None,
                },
            ),
        ) + line_text(
            tag_message(),
            option_text(
                match message {
                    Some(s) => Some(s@),
                    None => None,
                },
            ),
        ) + line_text(
            tag_src_cr(),
            option_number_text(
                match src_cr {
                    Some(m) => Some(m as int),
                    None => None,
                },
            ),
        ),
        forall|va: Option<Seq<char>>, vm: Option<Seq<char>>, vc: Option<int>| #[trigger]
            tail_at(chars@, from as int, va, vm, vc) ==> (r matches Some(
                ((author, message, src_cr), p2),
            ) && (match author {
                Some(s) => Some(s@),
                None => None::<Seq<char>>,
            }) == va && (match message {
                Some(s) => Some(s@),
                None => None::<Seq<char>>,
            }) == vm && (match src_cr {
                Some(m) => Some(m as int),
                None => None::<int>,
            }) == vc && p2 as int == from + line_len(tag_author(), option_text(va)) + line_len(
                tag_message(),
                option_text(vm),
            ) + line_len(tag_src_cr(), option_number_text(vc))),
{
    let _ = chars.len();
    let (author, nl4) = match parse_option_line(chars, from, "author: ") {
        Some(pair) => pair,
        None => {
            return None;
        },
    };
    let ghost line4 = chars@.subrange(from as int, nl4 + 1);
    let pos5 = nl4 + 1;
    let (message, nl5) = match parse_option_line(chars, pos5, "message: ") {
        Some(pair) => pair,
        None => {
            proof {
                assert forall|va: Option<Seq<char>>, vm: Option<Seq<char>>, vc: Option<int>|
                    #[trigger] tail_at(chars@, from as int, va, vm, vc) implies false by {
                    assert(pos5 as int == from + line_len("author: "@, option_text(va)));
                }
            }
            return None;
        },
    };
    let pos6 = nl5 + 1;
    let (src_cr, nl6) = match parse_option_number_line(chars, pos6, "src-cr: ") {
        Some(pair) => pair,
        None => {
            proof {
                assert forall|va: Option<Seq<char>>, vm: Option<Seq<char>>, vc: Option<int>|
                    #[trigger] tail_at(chars@, from as int, va, vm, vc) implies false by {
                    assert(pos5 as int == from + line_len("author: "@, option_text(va)));
                    assert(pos6 as int == pos5 + line_len("message: "@, option_text(vm)));
                }
            }
            return None;
        },
    };
    let p2 = nl6 + 1;
    proof {
        let line5 = chars@.subrange(pos5 as int, nl5 + 1);
        let line6 = chars@.subrange(pos6 as int, nl6 + 1);
        assert(chars@.subrange(from as int, p2 as int) =~= line4 + line5 + line6);
        assert forall|va: Option<Seq<char>>, vm: Option<Seq<char>>, vc: Option<int>| #[trigger]
            tail_at(chars@, from as int, va, vm, vc) implies (match author {
            Some(ref s) => Some(s@),
            None => None::<Seq<char>>,
        }) == va && (match message {
            Some(ref s) => Some(s@),
            None => None::<Seq<char>>,
        }) == vm && (match src_cr {
            Some(m) => Some(m as int),
            None => None::<int>,
        }) == vc && p2 as int == from + line_len("author: "@, option_text(va)) + line_len(
            "message: "@,
            option_text(vm),
        ) + line_len("src-cr: "@, option_number_text(vc)) by {
            assert(pos5 as int == from + line_len("author: "@, option_text(va)));
            assert(pos6 as int == pos5 + line_len("message: "@, option_text(vm)));
        }
    }
    Some(((author, message, src_cr), p2))
}

/// The tag of the author line.
pub open spec fn tag_author() -> Seq<char> {
    "author: "@
}

/// The tag of the message line.
pub open spec fn tag_message() -> Seq<char> {
    "message: "@
}

/// The tag of the provenance line.
pub open spec fn tag_src_cr() -> Seq<char> {
    "src-cr: "@
}

/// Reads one record at the cursor. A record that stands there is read
/// exactly; nothing else is accepted.
#[verifier::rlimit(100)]
fn parse_record(chars: &Vec<char>, from: usize) -> (r: Option<(LogEntry, usize)>)
    requires
        from <= chars@.len(),
    ensures
        r matches Some((entry, p2)) ==> from < p2 <= chars@.len() && entry@.edit.version >= 1
            && chars@.subrange(from as int, p2 as int) == record_text(entry@),
        forall|e: LogEntryView| #[trigger]
            record_at(chars@, from as int, e) ==> (r matches Some((entry, p2)) && entry@ == e && p2
                == from + record_text(e).len()),
{
    let head = match parse_record_head(chars, from) {
        Some(h) => h,
        None => {
            proof {
                assert forall|e: LogEntryView| #[trigger]
                    record_at(chars@, from as int, e) implies false by {
                    lemma_record_lines(chars@, from as int, e);
                    assert(head_at(chars@, from as int, e.path, e.edit.version, e.edit.operation));
                }
            }
            return None;
        },
    };
    let ((path, version, operation), p4) = head;
    let tail = match parse_record_tail(chars, p4) {
        Some(t) => t,
        None => {
            proof {
                assert forall|e: LogEntryView| #[trigger]
                    record_at(chars@, from as int, e) implies false by {
                    lemma_record_lines(chars@, from as int, e);
                    assert(head_at(chars@, from as int, e.path, e.edit.version, e.edit.operation));
                    assert(p4 as int == from + line_len("file: "@, e.path) + line_len(
                        "version: "@,
                        dec_digits(e.edit.version),
                    ) + line_len("operation: "@, operation_text(e.edit.operation)));
                    assert(tail_at(
                        chars@,
                        p4 as int,
                        e.edit.author,
                        e.edit.message,
                        e.edit.src_cr,
                    ));
                }
            }
            return None;
        },
    };
    let ((author, message, src_cr), p2) = tail;
    let entry = LogEntry {
        path,
        edit: crate::history::FileEdit { version, operation, author, message, src_cr },
    };
    proof {
        let ev = entry@;
        assert(record_text(ev) =~= line_text("file: "@, ev.path) + line_text(
            "version: "@,
            dec_digits(ev.edit.version),
        ) + line_text("operation: "@, operation_text(ev.edit.operation)) + (line_text(
            "author: "@,
            option_text(ev.edit.author),
        ) + line_text("message: "@, option_text(ev.edit.message)) + line_text(
            "src-cr: "@,
            option_number_text(ev.edit.src_cr),
        )));
        assert(chars@.subrange(from as int, p2 as int) =~= chars@.subrange(from as int, p4 as int)
            + chars@.subrange(p4 as int, p2 as int));
        assert(chars@.subrange(from as int, p2 as int) == record_text(ev));
        assert forall|e: LogEntryView| #[trigger] record_at(chars@, from as int, e) implies entry@
            == e && p2 as int == from + record_text(e).len() by {
            lemma_record_lines(chars@, from as int, e);
            assert(head_at(chars@, from as int, e.path, e.edit.version, e.edit.operation));
            assert(path@ == e.path && version as int == e.edit.version && operation
                == e.edit.operation);
            assert(p4 as int == from + line_len("file: "@, e.path) + line_len(
                "version: "@,
                dec_digits(e.edit.version),
            ) + line_len("operation: "@, operation_text(e.edit.operation)));
            assert(tail_at(chars@, p4 as int, e.edit.author, e.edit.message, e.edit.src_cr));
        }
    }
    Some((entry, p2))
}

/// Reads ledger text back into a log. A parse that succeeds is lossless:
/// writing the returned log gives back the very input text. And a parse
/// is owed success: it refuses a text only when no well-formed, ledger-
/// carriable log serializes to it.
pub fn text_to_log(text: &String) -> (r: Option<EditLog>)
    ensures
        r matches Some(log) ==> log_text(log@) == text@,
        r is None ==> forall|l: Seq<LogEntryView>|
            log_wf(l) && entries_line_safe(l) ==> #[trigger] log_text(l) != text@,
{
    let chars = str_to_chars(text.as_str());
    let n = chars.len();
    let mut log = EditLog::new();
    let mut latest: crate::pathmap::PathMap<i32> = crate::pathmap::PathMap::new();
    let mut pos: usize = 0;
    proof {
        assert(chars@.take(0) =~= log_text(log@));
        assert(crate::history::manifest_of(log@) =~= Map::<
            Seq<char>,
            crate::history::FileEditView,
        >::empty());
        assert forall|l: Seq<LogEntryView>|
            log_wf(l) && entries_line_safe(l) && #[trigger] log_text(l) == chars@ implies log@.len()
            <= l.len() && log@ == l.take(log@.len() as int) by {
            assert(log@ =~= l.take(0));
        }
    }
    while pos < n
        invariant
            pos <= n,
            n == chars@.len(),
            chars@ == text@,
            chars@.take(pos as int) == log_text(log@),
            forall|p: Seq<char>| #[trigger]
                latest@.contains_key(p) <==> crate::history::manifest_of(log@).contains_key(p),
            forall|p: Seq<char>| #[trigger]
                latest@.contains_key(p) ==> latest@[p] as int == crate::history::manifest_of(
                    log@,
                )[p].version,
            forall|l: Seq<LogEntryView>|
                log_wf(l) && entries_line_safe(l) && #[trigger] log_text(l) == chars@ ==> log@.len()
                    <= l.len() && log@ == l.take(log@.len() as int),
        decreases n - pos,
    {
        let ghost log0 = log@;
        let ghost pos0 = pos as int;
        let (entry, p2) = match parse_record(&chars, pos) {
            Some(pair) => pair,
            None => {
                proof {
                    assert forall|l: Seq<LogEntryView>|
                        log_wf(l) && entries_line_safe(l) implies #[trigger] log_text(l)
                        != chars@ by {
                        if log_text(l) == chars@ {
                            lemma_record_at_cursor(chars@, l, log0, pos0);
                            assert(record_at(chars@, pos0, l[log0.len() as int]));
                        }
                    }
                }
                return None;
            },
        };
        let version = entry.edit.version;
        let path_ok = match latest.get(&entry.path) {
            Some(prev) => version > *prev,
            None => true,
        };
        if !path_ok {
            proof {
                assert forall|l: Seq<LogEntryView>|
                    log_wf(l) && entries_line_safe(l) implies #[trigger] log_text(l)
                    != chars@ by {
                    if log_text(l) == chars@ {
                        lemma_record_at_cursor(chars@, l, log0, pos0);
                        let e = l[log0.len() as int];
                        assert(record_at(chars@, pos0, e));
                        assert(entry@ == e);
                        crate::history::lemma_manifest_max(log0);
                        let m0 = crate::history::manifest_of(log0);
                        assert(m0.contains_key(entry.path@));
                        let i = choose|i: int|
                            0 <= i < log0.len() && log0[i].path == entry.path@ && log0[i].edit
                                == m0[entry.path@];
                        assert(l[i] == log0[i]);
                        assert(l[i].path == e.path);
                        assert(l[i].edit.version < e.edit.version);
                    }
                }
            }
            return None;
        }
        proof {
            crate::history::lemma_manifest_max(log0);
            assert forall|i: int|
                0 <= i < log0.len() && log0[i].path == entry.path@ implies log0[i].edit.version
                < version as int by {
                assert(crate::history::manifest_of(log0).contains_key(log0[i].path));
                assert(latest@.contains_key(entry.path@));
            }
        }
        let path = entry.path.clone();
        let ghost ev = entry@;
        log.push_entry(entry);
        latest.insert(path, version);
        pos = p2;
        proof {
            assert(log@.drop_last() =~= log0);
            assert(chars@.take(pos as int) =~= chars@.take(pos0) + chars@.subrange(
                pos0,
                pos as int,
            ));
            assert(chars@.take(pos as int) == log_text(log@));
            let m0 = crate::history::manifest_of(log0);
            assert(crate::history::manifest_of(log@) == m0.insert(ev.path, ev.edit)) by {
                if m0.contains_key(ev.path) {
                    assert(m0[ev.path].version < ev.edit.version);
                }
            }
            assert forall|l: Seq<LogEntryView>|
                log_wf(l) && entries_line_safe(l) && #[trigger] log_text(l) == chars@ implies log
                @.len() <= l.len() && log@ == l.take(log@.len() as int) by {
                lemma_record_at_cursor(chars@, l, log0, pos0);
                let e = l[log0.len() as int];
                assert(record_at(chars@, pos0, e));
                assert(ev == e);
                assert(log@ =~= l.take(log0.len() as int + 1));
            }
        }
    }
    proof {
        assert(chars@.take(n as int) =~= chars@);
    }
    Some(log)
}

fn parse_operation(op_chars: &Vec<char>) -> (r: Option<FileOperation>)
    ensures
        r matches Some(op) ==> operation_text(op) == op_chars@,
        r is None ==> forall|op: FileOperation| operation_text(op) != op_chars@,
{
    let added = str_to_chars("added");
    let updated = str_to_chars("updated");
    let deleted = str_to_chars("deleted");
    if chars_equal(op_chars, &added) {
        Some(FileOperation::Added)
    } else if chars_equal(op_chars, &updated) {
        Some(FileOperation::Updated)
    } else if chars_equal(op_chars, &deleted) {
        Some(FileOperation::Deleted)
    } else {
        None
    }
}

fn chars_equal(a: &Vec<char>, b: &Vec<char>) -> (r: bool)
    ensures
        r == (a@ == b@),
{
    if a.len() != b.len() {
        proof {
            assert(a@.len() != b@.len());
        }
        return false;
    }
    let n = a.len();
    for k in 0..n
        invariant
            n == a@.len() && n == b@.len(),
            forall|j: int| 0 <= j < k ==> a@[j] == b@[j],
    {
        if a[k] != b[k] {
            return false;
        }
    }
    proof {
        assert(a@ =~= b@);
    }
    true
}

/// Reads one optional-text line: its body is `none`, or `some ` and the
/// text.
/// What the two option markers look like: their lengths differ, and a
/// marked-present body never equals the absent marker.
proof fn lemma_option_markers()
    ensures
        "none"@.len() == 4,
        "some "@.len() == 5,
        forall|s: Seq<char>| "some "@ + s != "none"@,
        forall|s: Seq<char>| ("some "@ + s).take(5) == "some "@,
{
    reveal_strlit("none");
    reveal_strlit("some ");
    assert forall|s: Seq<char>| "some "@ + s != "none"@ by {
        assert(("some "@ + s).len() == 5 + s.len());
    }
    assert forall|s: Seq<char>| #[trigger] ("some "@ + s).take(5) == "some "@ by {
        assert(("some "@ + s).take(5) =~= "some "@);
    }
}

fn parse_option_line(chars: &Vec<char>, from: usize, tag: &str) -> (r: Option<(Option<String>, usize)>)
    requires
        from <= chars@.len(),
    ensures
        r matches Some((v, nl)) ==> from <= nl < chars@.len() && chars@.subrange(
            from as int,
            nl + 1,
        ) == line_text(
            tag@,
            option_text(
                match v {
                    Some(s) => Some(s@),
                    None => None,
                },
            ),
        ),
        forall|v: Option<Seq<char>>|
            #[trigger] line_at(chars@, from as int, tag@, option_text(v)) ==> (r matches Some(
                (w, nl),
            ) && (match w {
                Some(ws) => Some(ws@),
                None => None::<Seq<char>>,
            }) == v && nl == from + tag@.len() + option_text(v).len()),
{
    proof {
        lemma_option_markers();
    }
    let nl = match find_newline(chars, from) {
        Some(i) => i,
        None => {
            proof {
                assert forall|v: Option<Seq<char>>|
                    #[trigger] line_at(chars@, from as int, tag@, option_text(v)) implies false by {
                    lemma_line_at_facts(chars@, from as int, tag@, option_text(v));
                }
            }
            return None;
        },
    };
    let tag_chars = str_to_chars(tag);
    let tn = tag_chars.len();
    proof {
        assert forall|v: Option<Seq<char>>|
            #[trigger] line_at(chars@, from as int, tag@, option_text(v)) implies nl as int == from
            + tag@.len() + option_text(v).len() && chars@.subrange(
            from + tag@.len(),
            nl as int,
        ) == option_text(v) && chars@.subrange(from as int, from + tag@.len()) == tag@ by {
            lemma_line_at_facts(chars@, from as int, tag@, option_text(v));
            lemma_first_newline_unique(
                chars@,
                from as int,
                nl as int,
                from + tag@.len() + option_text(v).len(),
            );
        }
    }
    if !starts_with_tag(chars, from, nl, tag) {
        return None;
    }
    let body_from = from + tn;
    let none_lit = str_to_chars("none");
    let body = copy_slice(chars, body_from, nl);
    if chars_equal(&body, &none_lit) {
        proof {
            assert(chars@[nl as int] == '\n');
            assert("\n"@ =~= seq!['\n']) by {
                reveal_strlit("\n");
            }
            assert(body@ == chars@.subrange(from + tag@.len(), nl as int));
            assert(chars@.subrange(from as int, from + tag@.len()) == tag@);
            assert(chars@.subrange(from as int, nl + 1) =~= line_text(tag@, "none"@));
        }
        return Some((None, nl));
    }
    if starts_with_tag(chars, body_from, nl, "some ") {
        let sl = str_to_chars("some ").len();
        let s_chars = copy_slice(chars, body_from + sl, nl);
        let s = chars_to_string(&s_chars);
        proof {
            assert(chars@.subrange(from as int, nl + 1) =~= line_text(tag@, "some "@ + s@)) by {
                assert(chars@.subrange(from as int, from + tag@.len()) == tag@);
                assert(chars@.subrange(body_from as int, body_from + "some "@.len()) == "some "@);
                assert(s@ == chars@.subrange(body_from + "some "@.len(), nl as int));
                assert(chars@[nl as int] == '\n');
                assert("\n"@ =~= seq!['\n']) by {
                    reveal_strlit("\n");
                }
            }
            assert forall|v: Option<Seq<char>>|
                #[trigger] line_at(chars@, from as int, tag@, option_text(v)) implies (match v {
                Some(sv) => sv == s@,
                None => false,
            }) by {
                match v {
                    Some(sv) => {
                        assert(option_text(v) == "some "@ + sv);
                        assert(chars@.subrange(from + tag@.len(), nl as int) == "some "@ + sv);
                        assert(sv =~= s@) by {
                            assert(("some "@ + sv).len() == 5 + sv.len());
                            assert forall|j: int| 0 <= j < sv.len() implies sv[j] == s@[j] by {
                                assert(("some "@ + sv)[5 + j] == sv[j]);
                                assert(chars@.subrange(from + tag@.len(), nl as int)[5 + j]
                                    == chars@[body_from + 5 + j]);
                                assert(s@[j] == chars@[body_from + 5 + j]);
                            }
                            assert(sv.len() == s@.len());
                        }
                    },
                    None => {
                        assert(option_text(v) == "none"@);
                        assert(body@ == "none"@);
                    },
                }
            }
        }
        return Some((Some(s), nl));
    }
    proof {
        assert forall|v: Option<Seq<char>>|
            #[trigger] line_at(chars@, from as int, tag@, option_text(v)) implies false by {
            match v {
                Some(sv) => {
                    assert(chars@.subrange(from + tag@.len(), nl as int) == "some "@ + sv);
                    assert(body@ == "some "@ + sv);
                    assert(nl - body_from == 5 + sv.len());
                    assert(chars@.subrange(body_from as int, body_from + 5) =~= "some "@) by {
                        assert forall|j: int| 0 <= j < 5 implies chars@.subrange(
                            body_from as int,
                            body_from + 5,
                        )[j] == "some "@[j] by {
                            assert(body@[j] == chars@[body_from + j]);
                            assert(("some "@ + sv)[j] == "some "@[j]);
                        }
                    }
                },
                None => {
                    assert(body@ == "none"@);
                },
            }
        }
    }
    None
}

/// Reads one optional-number line: its body is `none`, or `some ` and a
/// canonical decimal.
fn parse_option_number_line(chars: &Vec<char>, from: usize, tag: &str) -> (r: Option<
    (Option<usize>, usize),
>)
    requires
        from <= chars@.len(),
    ensures
        r matches Some((v, nl)) ==> from <= nl < chars@.len() && chars@.subrange(
            from as int,
            nl + 1,
        ) == line_text(
            tag@,
            option_number_text(
                match v {
                    Some(m) => Some(m as int),
                    None => None,
                },
            ),
        ) && (v matches Some(m) ==> m <= i32::MAX as usize),
        forall|v: Option<int>|
            (match v {
                Some(m) => 0 <= m <= i32::MAX as int,
                None => true,
            }) && #[trigger] line_at(chars@, from as int, tag@, option_number_text(v)) ==> (
            r matches Some((w, nl)) && (match w {
                Some(m2) => Some(m2 as int),
                None => None::<int>,
            }) == v && nl == from + tag@.len() + option_number_text(v).len()),
{
    proof {
        lemma_option_markers();
    }
    let nl = match find_newline(chars, from) {
        Some(i) => i,
        None => {
            proof {
                assert forall|v: Option<int>|
                    #[trigger] line_at(
                        chars@,
                        from as int,
                        tag@,
                        option_number_text(v),
                    ) implies false by {
                    lemma_line_at_facts(chars@, from as int, tag@, option_number_text(v));
                }
            }
            return None;
        },
    };
    let tag_chars = str_to_chars(tag);
    let tn = tag_chars.len();
    proof {
        assert forall|v: Option<int>|
            #[trigger] line_at(chars@, from as int, tag@, option_number_text(v)) implies nl as int
            == from + tag@.len() + option_number_text(v).len() && chars@.subrange(
            from + tag@.len(),
            nl as int,
        ) == option_number_text(v) && chars@.subrange(from as int, from + tag@.len())
            == tag@ by {
            lemma_line_at_facts(chars@, from as int, tag@, option_number_text(v));
            lemma_first_newline_unique(
                chars@,
                from as int,
                nl as int,
                from + tag@.len() + option_number_text(v).len(),
            );
        }
    }
    if !starts_with_tag(chars, from, nl, tag) {
        return None;
    }
    let body_from = from + tn;
    let none_lit = str_to_chars("none");
    let body = copy_slice(chars, body_from, nl);
    if chars_equal(&body, &none_lit) {
        proof {
            assert(chars@[nl as int] == '\n');
            assert("\n"@ =~= seq!['\n']) by {
                reveal_strlit("\n");
            }
            assert(body@ == chars@.subrange(from + tag@.len(), nl as int));
            assert(chars@.subrange(from as int, from + tag@.len()) == tag@);
            assert(chars@.subrange(from as int, nl + 1) =~= line_text(tag@, "none"@));
        }
        return Some((None, nl));
    }
    proof {
        assert forall|v: Option<int>|
            #[trigger] line_at(chars@, from as int, tag@, option_number_text(v)) implies (
            match v {
                Some(m) => chars@.subrange(body_from + 5, nl as int) == dec_digits(m) && nl
                    - body_from == 5 + dec_digits(m).len(),
                None => false,
            }) by {
            match v {
                Some(m) => {
                    let digits = dec_digits(m);
                    assert(chars@.subrange(from + tag@.len(), nl as int) == "some "@ + digits);
                    assert(body@ == "some "@ + digits);
                    assert(chars@.subrange(body_from + 5, nl as int) =~= digits) by {
                        assert forall|j: int| 0 <= j < digits.len() implies chars@.subrange(
                            body_from + 5,
                            nl as int,
                        )[j] == digits[j] by {
                            assert(body@[5 + j] == chars@[body_from + 5 + j]);
                            assert(("some "@ + digits)[5 + j] == digits[j]);
                        }
                    }
                },
                None => {
                    assert(body@ == "none"@);
                },
            }
        }
    }
    if starts_with_tag(chars, body_from, nl, "some ") {
        let sl = str_to_chars("some ").len();
        let m = match parse_decimal_slice(chars, body_from + sl, nl) {
            Some(m) => m,
            None => {
                return None;
            },
        };
        proof {
            assert(chars@.subrange(from as int, nl + 1) =~= line_text(
                tag@,
                "some "@ + dec_digits(m as int),
            )) by {
                assert(chars@.subrange(from as int, from + tag@.len()) == tag@);
                assert(chars@.subrange(body_from as int, body_from + "some "@.len()) == "some "@);
                assert(dec_digits(m as int) == chars@.subrange(
                    body_from + "some "@.len(),
                    nl as int,
                ));
                assert(chars@[nl as int] == '\n');
                assert("\n"@ =~= seq!['\n']) by {
                    reveal_strlit("\n");
                }
            }
        }
        return Some((Some(m as usize), nl));
    }
    proof {
        assert forall|v: Option<int>|
            #[trigger] line_at(chars@, from as int, tag@, option_number_text(v)) implies false by {
            match v {
                Some(mm) => {
                    assert(body@ == "some "@ + dec_digits(mm));
                    assert(nl - body_from == 5 + dec_digits(mm).len());
                    assert(chars@.subrange(body_from as int, body_from + 5) =~= "some "@) by {
                        assert forall|j: int| 0 <= j < 5 implies chars@.subrange(
                            body_from as int,
                            body_from + 5,
                        )[j] == "some "@[j] by {
                            assert(body@[j] == chars@[body_from + j]);
                            assert(("some "@ + dec_digits(mm))[j] == "some "@[j]);
                        }
                    }
                },
                None => {
                    assert(body@ == "none"@);
                },
            }
        }
    }
    None
}

} // verus!
