//! Text tests and trims on character sequences.

use vstd::prelude::*;

verus! {

/// Whether `needle` stands in `text` at position `at`.
pub open spec fn occurs_at(text: Seq<char>, needle: Seq<char>, at: int) -> bool {
    &&& 0 <= at
    &&& at + needle.len() <= text.len()
    &&& text.subrange(at, at + needle.len()) == needle
}

/// Whether `text` begins with `prefix`.
pub open spec fn has_prefix(text: Seq<char>, prefix: Seq<char>) -> bool {
    occurs_at(text, prefix, 0)
}

/// Whether `needle` stands somewhere in `text`.
pub open spec fn has_substring(text: Seq<char>, needle: Seq<char>) -> bool {
    exists|at: int| occurs_at(text, needle, at)
}

/// `text` without its leading run of `c`.
pub open spec fn trim_start(text: Seq<char>, c: char) -> Seq<char>
    decreases text.len(),
{
    if text.len() > 0 && text[0] == c {
        trim_start(text.drop_first(), c)
    } else {
        text
    }
}

/// `text` without its trailing run of `c`.
pub open spec fn trim_end(text: Seq<char>, c: char) -> Seq<char>
    decreases text.len(),
{
    if text.len() > 0 && text.last() == c {
        trim_end(text.drop_last(), c)
    } else {
        text
    }
}

/// Whether two strings hold the same characters.
pub fn str_equal(left: &str, right: &str) -> (same: bool)
    ensures
        same == (left@ == right@),
{
    let a = left.as_bytes();
    let b = right.as_bytes();
    proof {
        vstd::utf8::encode_utf8_decode_utf8(left@);
        vstd::utf8::encode_utf8_decode_utf8(right@);
    }
    if a.len() != b.len() {
        return false;
    }
    let mut i: usize = 0;
    while i < a.len()
        invariant
            0 <= i <= a@.len(),
            a@.len() == b@.len(),
            a@ == vstd::utf8::encode_utf8(left@),
            b@ == vstd::utf8::encode_utf8(right@),
            a@.take(i as int) == b@.take(i as int),
        decreases a@.len() - i,
    {
        if a[i] != b[i] {
            proof {
                if left@ == right@ {
                    assert(a@ == b@);
                    assert(a@[i as int] == b@[i as int]);
                }
            }
            return false;
        }
        proof {
            assert(a@.take(i + 1) =~= a@.take(i as int).push(a@[i as int]));
            assert(b@.take(i + 1) =~= b@.take(i as int).push(b@[i as int]));
        }
        i += 1;
    }
    proof {
        assert(a@.take(i as int) =~= a@);
        assert(b@.take(i as int) =~= b@);
    }
    true
}

/// Whether `needle`, of `needle_len` characters, stands in `text` at `at`.
fn matches_at(text: &str, needle: &str, at: usize, text_len: usize, needle_len: usize) -> (found:
    bool)
    requires
        text_len == text@.len(),
        needle_len == needle@.len(),
        at + needle_len <= text_len,
    ensures
        found == occurs_at(text@, needle@, at as int),
{
    let mut j: usize = 0;
    while j < needle_len
        invariant
            0 <= j <= needle_len,
            text_len == text@.len(),
            needle_len == needle@.len(),
            at + needle_len <= text_len,
            forall|t: int| 0 <= t < j ==> text@[at + t] == needle@[t],
        decreases needle_len - j,
    {
        if text.get_char(at + j) != needle.get_char(j) {
            proof {
                assert(text@.subrange(at as int, at + needle@.len())[j as int] == text@[at + j]);
            }
            return false;
        }
        j += 1;
    }
    proof {
        assert(text@.subrange(at as int, at + needle@.len()) =~= needle@);
    }
    true
}

/// Whether `text` begins with `prefix`.
pub fn starts_with(text: &str, prefix: &str) -> (found: bool)
    ensures
        found == has_prefix(text@, prefix@),
{
    let text_len = text.unicode_len();
    let prefix_len = prefix.unicode_len();
    if prefix_len > text_len {
        false
    } else {
        matches_at(text, prefix, 0, text_len, prefix_len)
    }
}

/// Whether `needle` stands somewhere in `text`.
pub fn contains(text: &str, needle: &str) -> (found: bool)
    ensures
        found == has_substring(text@, needle@),
{
    let text_len = text.unicode_len();
    let needle_len = needle.unicode_len();
    if needle_len > text_len {
        return false;
    }
    if needle_len == 0 {
        proof {
            assert(text@.subrange(0, 0) =~= needle@);
            assert(occurs_at(text@, needle@, 0));
        }
        return true;
    }
    let last = text_len - needle_len;
    let mut at: usize = 0;
    while at <= last
        invariant
            0 <= at <= last + 1,
            last == text_len - needle_len,
            text_len == text@.len(),
            needle_len == needle@.len(),
            needle_len > 0,
            forall|before: int| 0 <= before < at ==> !occurs_at(text@, needle@, before),
        decreases last + 1 - at,
    {
        if matches_at(text, needle, at, text_len, needle_len) {
            return true;
        }
        at += 1;
    }
    false
}

/// The first position at or after `from` where `needle` stands in `text`;
/// the length of `text` when there is none.
pub open spec fn position_from(text: Seq<char>, needle: Seq<char>, from: int) -> int
    decreases text.len() - from,
{
    if from < 0 || from >= text.len() || from + needle.len() > text.len() {
        text.len() as int
    } else if occurs_at(text, needle, from) {
        from
    } else {
        position_from(text, needle, from + 1)
    }
}

/// The first position where `needle` stands in `text`; the length of
/// `text` when there is none.
pub fn find(text: &str, needle: &str) -> (at: usize)
    ensures
        at == position_from(text@, needle@, 0),
        at <= text@.len(),
        at < text@.len() ==> occurs_at(text@, needle@, at as int),
{
    let text_len = text.unicode_len();
    let needle_len = needle.unicode_len();
    if needle_len > text_len {
        return text_len;
    }
    let last = text_len - needle_len;
    let mut at: usize = 0;
    while at < text_len && at <= last
        invariant
            0 <= at <= text_len,
            last == text_len - needle_len,
            text_len == text@.len(),
            needle_len == needle@.len(),
            position_from(text@, needle@, 0) == position_from(text@, needle@, at as int),
        decreases text_len - at,
    {
        if matches_at(text, needle, at, text_len, needle_len) {
            return at;
        }
        at += 1;
    }
    text_len
}

/// `text` without its leading slashes.
pub fn trim_start_slashes(text: &str) -> (rest: &str)
    ensures
        rest@ == trim_start(text@, '/'),
{
    let len = text.unicode_len();
    let mut i: usize = 0;
    proof {
        assert(text@.subrange(0, len as int) =~= text@);
    }
    let mut stopped = false;
    while i < len && !stopped
        invariant
            0 <= i <= len,
            len == text@.len(),
            stopped ==> i < len && text@[i as int] != '/',
            trim_start(text@, '/') == trim_start(text@.subrange(i as int, len as int), '/'),
        decreases len - i + if stopped { 0int } else { 1int },
    {
        if text.get_char(i) != '/' {
            stopped = true;
        } else {
            proof {
                assert(text@.subrange(i as int, len as int).drop_first() =~= text@.subrange(
                    i + 1,
                    len as int,
                ));
            }
            i += 1;
        }
    }
    proof {
        if i < len {
            assert(text@.subrange(i as int, len as int)[0] == text@[i as int]);
        }
    }
    text.substring_char(i, len)
}

/// `text` without its trailing slashes.
pub fn trim_end_slashes(text: &str) -> (rest: &str)
    ensures
        rest@ == trim_end(text@, '/'),
{
    let len = text.unicode_len();
    let mut end: usize = len;
    proof {
        assert(text@.subrange(0, len as int) =~= text@);
    }
    let mut stopped = false;
    while end > 0 && !stopped
        invariant
            0 <= end <= len,
            len == text@.len(),
            stopped ==> end > 0 && text@[end - 1] != '/',
            trim_end(text@, '/') == trim_end(text@.subrange(0, end as int), '/'),
        decreases end + if stopped { 0int } else { 1int },
    {
        if text.get_char(end - 1) != '/' {
            stopped = true;
        } else {
            proof {
                assert(text@.subrange(0, end as int).drop_last() =~= text@.subrange(0, end - 1));
            }
            end -= 1;
        }
    }
    proof {
        if end > 0 {
            assert(text@.subrange(0, end as int).last() == text@[end - 1]);
        }
    }
    text.substring_char(0, end)
}

/// The characters of `text` from position `from` on.
pub fn skip_chars(text: &str, from: usize) -> (rest: &str)
    ensures
        from <= text@.len() ==> rest@ == text@.subrange(from as int, text@.len() as int),
        from > text@.len() ==> rest@ == Seq::<char>::empty(),
{
    let len = text.unicode_len();
    if from <= len {
        text.substring_char(from, len)
    } else {
        text.substring_char(len, len)
    }
}

/// `left` followed by `right`.
pub fn join(left: &str, right: &str) -> (joined: String)
    ensures
        joined@ == left@ + right@,
{
    let mut joined = left.to_owned();
    joined.append(right);
    joined
}

/// A text that may be absent, as the model sees it.
pub open spec fn optional_text(text: Option<&str>) -> Option<Seq<char>> {
    match text {
        Some(s) => Some(s@),
        None => None,
    }
}

/// An owned text that may be absent, as the model sees it.
pub open spec fn optional_string(text: Option<String>) -> Option<Seq<char>> {
    match text {
        Some(s) => Some(s@),
        None => None,
    }
}

/// The code of a character, with the ASCII capitals folded onto the small
/// letters.
pub open spec fn folded(c: char) -> u32 {
    if 65 <= c as u32 && c as u32 <= 90 {
        (c as u32 + 32) as u32
    } else {
        c as u32
    }
}

/// A text without regard to ASCII case: the folded codes of its characters.
pub open spec fn canonical(text: Seq<char>) -> Seq<u32> {
    Seq::new(text.len(), |i: int| folded(text[i]))
}

/// The folded code of a character.
fn fold(c: char) -> (code: u32)
    ensures
        code == folded(c),
{
    let code = c as u32;
    if 65 <= code && code <= 90 {
        code + 32
    } else {
        code
    }
}

/// Whether two texts are the same without regard to ASCII case.
pub fn same_ignoring_case(left: &str, right: &str) -> (same: bool)
    ensures
        same == (canonical(left@) == canonical(right@)),
{
    let len = left.unicode_len();
    if right.unicode_len() != len {
        proof {
            assert(canonical(left@).len() != canonical(right@).len());
        }
        return false;
    }
    let mut i: usize = 0;
    while i < len
        invariant
            0 <= i <= len,
            len == left@.len(),
            len == right@.len(),
            forall|t: int| 0 <= t < i ==> folded(left@[t]) == folded(right@[t]),
        decreases len - i,
    {
        if fold(left.get_char(i)) != fold(right.get_char(i)) {
            proof {
                assert(canonical(left@)[i as int] != canonical(right@)[i as int]);
            }
            return false;
        }
        i += 1;
    }
    proof {
        assert(canonical(left@) =~= canonical(right@));
    }
    true
}

/// Whether a character is a blank: a space or a tab.
pub open spec fn is_blank(c: char) -> bool {
    c == ' ' || c == '\t'
}

/// `text` without its leading blanks.
pub open spec fn without_leading_blanks(text: Seq<char>) -> Seq<char>
    decreases text.len(),
{
    if text.len() > 0 && is_blank(text[0]) {
        without_leading_blanks(text.drop_first())
    } else {
        text
    }
}

/// `text` without its trailing blanks.
pub open spec fn without_trailing_blanks(text: Seq<char>) -> Seq<char>
    decreases text.len(),
{
    if text.len() > 0 && is_blank(text.last()) {
        without_trailing_blanks(text.drop_last())
    } else {
        text
    }
}

/// `text` without the blanks at either end.
pub open spec fn trimmed(text: Seq<char>) -> Seq<char> {
    without_trailing_blanks(without_leading_blanks(text))
}

/// `text` without the blanks at either end.
pub fn trim_blanks(text: &str) -> (rest: &str)
    ensures
        rest@ == trimmed(text@),
{
    let len = text.unicode_len();
    let mut start: usize = 0;
    let mut stopped = false;
    proof {
        assert(text@.subrange(0, len as int) =~= text@);
    }
    while start < len && !stopped
        invariant
            0 <= start <= len,
            len == text@.len(),
            stopped ==> start < len && !is_blank(text@[start as int]),
            without_leading_blanks(text@) == without_leading_blanks(
                text@.subrange(start as int, len as int),
            ),
        decreases len - start + if stopped { 0int } else { 1int },
    {
        let c = text.get_char(start);
        if c == ' ' || c == '\t' {
            proof {
                assert(text@.subrange(start as int, len as int).drop_first() =~= text@.subrange(
                    start + 1,
                    len as int,
                ));
            }
            start += 1;
        } else {
            stopped = true;
        }
    }
    proof {
        if start < len {
            assert(text@.subrange(start as int, len as int)[0] == text@[start as int]);
        }
    }
    let ghost head = text@.subrange(start as int, len as int);
    let mut end: usize = len;
    let mut stopped = false;
    proof {
        assert(head.subrange(0, len - start) =~= head);
    }
    while end > start && !stopped
        invariant
            start <= end <= len,
            len == text@.len(),
            head == text@.subrange(start as int, len as int),
            stopped ==> end > start && !is_blank(text@[end - 1]),
            without_trailing_blanks(head) == without_trailing_blanks(
                head.subrange(0, end - start),
            ),
        decreases end + if stopped { 0int } else { 1int },
    {
        let c = text.get_char(end - 1);
        if c == ' ' || c == '\t' {
            proof {
                assert(head.subrange(0, end - start).last() == text@[end - 1]);
                assert(head.subrange(0, end - start).drop_last() =~= head.subrange(
                    0,
                    end - 1 - start,
                ));
            }
            end -= 1;
        } else {
            stopped = true;
        }
    }
    proof {
        if end > start {
            assert(head.subrange(0, end - start).last() == text@[end - 1]);
        }
        assert(head.subrange(0, end - start) =~= text@.subrange(start as int, end as int));
    }
    text.substring_char(start, end)
}

/// The name of one member of a list header: what stands before its first
/// `;`, without the blanks at either end.
pub open spec fn member_name(member: Seq<char>) -> Seq<char> {
    trimmed(member.subrange(0, position_from(member, ";"@, 0)))
}

/// Whether a comma-separated list header lists `token`: whether one of its
/// members, cut at its first `;` and trimmed, is `token`.
pub open spec fn lists_token(list: Seq<char>, token: Seq<char>) -> bool
    decreases list.len(),
{
    let cut = position_from(list, ","@, 0);
    if 0 <= cut < list.len() {
        member_name(list.subrange(0, cut)) == token || lists_token(
            list.subrange(cut + 1, list.len() as int),
            token,
        )
    } else {
        member_name(list) == token
    }
}

/// The name of one member of a list header.
pub fn name_of_member(member: &str) -> (name: &str)
    ensures
        name@ == member_name(member@),
{
    let cut = find(member, ";");
    trim_blanks(member.substring_char(0, cut))
}

/// Whether a comma-separated list header lists `token`.
pub fn header_lists(list: &str, token: &str) -> (found: bool)
    ensures
        found == lists_token(list@, token@),
{
    let mut rest = list;
    loop
        invariant
            lists_token(list@, token@) == lists_token(rest@, token@),
        decreases rest@.len(),
    {
        let len = rest.unicode_len();
        let cut = find(rest, ",");
        if cut < len {
            if str_equal(name_of_member(rest.substring_char(0, cut)), token) {
                return true;
            }
            rest = rest.substring_char(cut + 1, len);
        } else {
            return str_equal(name_of_member(rest), token);
        }
    }
}

} // verus!
