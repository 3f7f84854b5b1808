use vstd::prelude::*;
use crate::number::{int_text, lemma_int_text_chars, lemma_parse_int_text, parse_i32, parse_i32_spec};
use crate::status::{QueryError, QueryStatus};
use crate::text::chars_of;

verus! {

/// The first index at or after `from` that holds `c`, or the length of `s`
/// when there is none.
pub open spec fn find(s: Seq<char>, c: char, from: int) -> int
    decreases s.len() - from,
{
    if from >= s.len() {
        s.len() as int
    } else if s[from] == c {
        from
    } else {
        find(s, c, from + 1)
    }
}

pub proof fn lemma_find_bounds(s: Seq<char>, c: char, from: int)
    requires
        0 <= from <= s.len(),
    ensures
        from <= find(s, c, from) <= s.len(),
        find(s, c, from) < s.len() ==> s[find(s, c, from)] == c,
        forall|j: int| from <= j < find(s, c, from) ==> s[j] != c,
    decreases s.len() - from,
{
    if from < s.len() && s[from] != c {
        lemma_find_bounds(s, c, from + 1);
    }
}

pub proof fn lemma_find_at(s: Seq<char>, c: char, from: int, k: int)
    requires
        0 <= from <= k <= s.len(),
        k == s.len() || s[k] == c,
        forall|j: int| from <= j < k ==> s[j] != c,
    ensures
        find(s, c, from) == k,
    decreases k - from,
{
    if from < k {
        lemma_find_at(s, c, from + 1, k);
    }
}

fn find_char(s: &[char], c: char, from: usize) -> (r: usize)
    requires
        from <= s@.len(),
    ensures
        r == find(s@, c, from as int),
{
    let mut i = from;
    while i < s.len()
        invariant
            from <= i <= s@.len(),
            find(s@, c, from as int) == find(s@, c, i as int),
        decreases s@.len() - i,
    {
        if s[i] == c {
            return i;
        }
        i = i + 1;
    }
    i
}

/// The token that opens a status line.
pub open spec fn status_prefix() -> Seq<char> {
    seq!['e', 'r', 'r', 'o', 'r', ' ']
}

pub open spec fn is_status_line(l: Seq<char>) -> bool {
    l.len() >= 6 && l.subrange(0, 6) == status_prefix()
}

/// The line of `s` that starts at `start` and whose newline (or the end of
/// `s`) is at `end`; a `\r` just before a newline is not part of it.
pub open spec fn line_at(s: Seq<char>, start: int, end: int) -> Seq<char> {
    if start < end < s.len() && s[end - 1] == '\r' {
        s.subrange(start, end - 1)
    } else {
        s.subrange(start, end)
    }
}

/// The first status line among the lines of `s` that start at or after the
/// line start `i`.
pub open spec fn status_line_from(s: Seq<char>, i: int) -> Option<Seq<char>>
    decreases s.len() - i,
    via status_line_from_decreases
{
    if i < 0 || i >= s.len() {
        None
    } else {
        let e = find(s, '\n', i);
        let l = line_at(s, i, e);
        if is_status_line(l) {
            Some(l)
        } else if e < s.len() {
            status_line_from(s, e + 1)
        } else {
            None
        }
    }
}

#[via_fn]
proof fn status_line_from_decreases(s: Seq<char>, i: int) {
    if 0 <= i < s.len() {
        lemma_find_bounds(s, '\n', i);
    }
}

/// The lines of `s` from the line start `i` on: each runs up to the next
/// newline, without a `\r` just before it; a newline that ends `s` opens no
/// further line.
pub open spec fn lines_from(s: Seq<char>, i: int) -> Seq<Seq<char>>
    decreases s.len() - i,
    via lines_from_decreases
{
    if i < 0 || i >= s.len() {
        Seq::empty()
    } else {
        let e = find(s, '\n', i);
        if e < s.len() {
            seq![line_at(s, i, e)] + lines_from(s, e + 1)
        } else {
            seq![line_at(s, i, e)]
        }
    }
}

#[via_fn]
proof fn lines_from_decreases(s: Seq<char>, i: int) {
    if 0 <= i < s.len() {
        lemma_find_bounds(s, '\n', i);
    }
}

/// The lines of `s`.
pub open spec fn lines(s: Seq<char>) -> Seq<Seq<char>> {
    lines_from(s, 0)
}

/// The search for a status line finds nothing exactly when no line begins
/// with `error `.
proof fn lemma_no_status_line(s: Seq<char>, i: int)
    ensures
        status_line_from(s, i) is None <==> forall|k: int|
            0 <= k < lines_from(s, i).len() ==> !is_status_line(#[trigger] lines_from(s, i)[k]),
    decreases s.len() - i,
{
    if 0 <= i < s.len() {
        lemma_find_bounds(s, '\n', i);
        let e = find(s, '\n', i);
        let ls = lines_from(s, i);
        if e < s.len() {
            lemma_no_status_line(s, e + 1);
            let rest = lines_from(s, e + 1);
            assert forall|k: int| 0 < k < ls.len() implies ls[k] == rest[k - 1] by {}
            if !is_status_line(line_at(s, i, e)) && status_line_from(s, e + 1) is None {
                assert forall|k: int| 0 <= k < ls.len() implies !is_status_line(#[trigger] ls[k]) by {
                    if k > 0 {
                        assert(ls[k] == rest[k - 1]);
                    }
                }
            }
            if !is_status_line(line_at(s, i, e)) && status_line_from(s, e + 1) is Some {
                let k = choose|k: int| 0 <= k < rest.len() && is_status_line(#[trigger] rest[k]);
                assert(ls[k + 1] == rest[k]);
            }
            assert(ls[0] == line_at(s, i, e));
        } else {
            assert(ls[0] == line_at(s, i, e));
        }
    }
}

/// The first line of `s` that begins with `error `.
pub open spec fn status_line(s: Seq<char>) -> Option<Seq<char>> {
    status_line_from(s, 0)
}

/// The code and message of a status line `error <id-field> <msg-field>`:
/// the fields are split at the first space after the token, and each one's
/// value is what follows its first `=`.
pub open spec fn parse_status_line_spec(l: Seq<char>) -> Option<(i32, Seq<char>)> {
    let rem = l.subrange(6, l.len() as int);
    let sp = find(rem, ' ', 0);
    let idf = rem.subrange(0, sp);
    let msgf = rem.subrange(sp + 1, rem.len() as int);
    let e1 = find(idf, '=', 0);
    let e2 = find(msgf, '=', 0);
    if sp == rem.len() || e1 == idf.len() || e2 == msgf.len() {
        None
    } else {
        match parse_i32_spec(idf.subrange(e1 + 1, idf.len() as int)) {
            Some(v) => Some((v, msgf.subrange(e2 + 1, msgf.len() as int))),
            None => None,
        }
    }
}

/// What decoding the text `t` yields, over plain values.
pub open spec fn decode_text_spec(t: Seq<char>) -> Result<Option<(i32, Seq<char>)>, QueryError> {
    match status_line(t) {
        None => Ok(None),
        Some(l) => match parse_status_line_spec(l) {
            Some(st) => Ok(Some(st)),
            None => Err(QueryError::MalformedStatus),
        },
    }
}

/// A decoding result with the status replaced by its view.
pub open spec fn result_view(r: Result<Option<QueryStatus>, QueryError>) -> Result<
    Option<(i32, Seq<char>)>,
    QueryError,
> {
    match r {
        Ok(Some(st)) => Ok(Some(st@)),
        Ok(None) => Ok(None),
        Err(e) => Err(e),
    }
}

/// Reads a status line (one that begins with `error `).
pub fn parse_status_line(line: &str) -> (r: Result<QueryStatus, QueryError>)
    requires
        is_status_line(line@),
    ensures
        match parse_status_line_spec(line@) {
            Some(st) => r matches Ok(s) && s@ == st,
            None => r == Err::<QueryStatus, QueryError>(QueryError::MalformedStatus),
        },
{
    let lc = chars_of(line);
    let n = lc.len();
    let rem = &lc.as_slice()[6..n];
    assert(rem@ =~= line@.subrange(6, n as int));
    let sp = find_char(rem, ' ', 0);
    proof {
        lemma_find_bounds(rem@, ' ', 0);
    }
    if sp == rem.len() {
        return Err(QueryError::MalformedStatus);
    }
    let idf = &rem[0..sp];
    let msgf = &rem[sp + 1..rem.len()];
    assert(idf@ =~= rem@.subrange(0, sp as int));
    assert(msgf@ =~= rem@.subrange(sp + 1, rem@.len() as int));
    proof {
        lemma_find_bounds(idf@, '=', 0);
        lemma_find_bounds(msgf@, '=', 0);
    }
    let e1 = find_char(idf, '=', 0);
    let e2 = find_char(msgf, '=', 0);
    if e1 == idf.len() || e2 == msgf.len() {
        return Err(QueryError::MalformedStatus);
    }
    let idv = &idf[e1 + 1..idf.len()];
    assert(idv@ =~= idf@.subrange(e1 + 1, idf@.len() as int));
    match parse_i32(idv) {
        Some(id) => {
            let start = 6 + sp + 1 + e2 + 1;
            let msg = line.substring_char(start, n);
            assert(msg@ =~= msgf@.subrange(e2 + 1, msgf@.len() as int));
            Ok(QueryStatus::new(id, msg.to_owned()))
        },
        None => Err(QueryError::MalformedStatus),
    }
}

fn starts_status_line(s: &Vec<char>, start: usize, end: usize) -> (r: bool)
    requires
        start <= end <= s@.len(),
    ensures
        r == is_status_line(s@.subrange(start as int, end as int)),
{
    if end - start < 6 {
        return false;
    }
    let r = s[start] == 'e' && s[start + 1] == 'r' && s[start + 2] == 'r' && s[start + 3] == 'o'
        && s[start + 4] == 'r' && s[start + 5] == ' ';
    proof {
        let l = s@.subrange(start as int, end as int);
        if r {
            assert(l.subrange(0, 6) =~= status_prefix());
        } else {
            if l.subrange(0, 6) == status_prefix() {
                assert(l.subrange(0, 6)[0] == 'e');
                assert(l.subrange(0, 6)[1] == 'r');
                assert(l.subrange(0, 6)[2] == 'r');
                assert(l.subrange(0, 6)[3] == 'o');
                assert(l.subrange(0, 6)[4] == 'r');
                assert(l.subrange(0, 6)[5] == ' ');
            }
        }
    }
    r
}

/// Decodes a response that is already text: the status of its first line
/// that begins with `error `, `None` when no line does.
pub fn decode_text(text: &str) -> (r: Result<Option<QueryStatus>, QueryError>)
    ensures
        result_view(r) == decode_text_spec(text@),
{
    let chars = chars_of(text);
    let n = chars.len();
    let mut i: usize = 0;
    while i < n
        invariant
            i <= n,
            n == chars@.len(),
            chars@ == text@,
            status_line_from(chars@, 0) == status_line_from(chars@, i as int),
        decreases n - i,
    {
        let e = find_char(chars.as_slice(), '\n', i);
        proof {
            lemma_find_bounds(chars@, '\n', i as int);
        }
        let end = if i < e && e < n && chars[e - 1] == '\r' {
            e - 1
        } else {
            e
        };
        assert(line_at(chars@, i as int, e as int) == chars@.subrange(i as int, end as int));
        if starts_status_line(&chars, i, end) {
            let line = text.substring_char(i, end);
            return match parse_status_line(line) {
                Ok(st) => Ok(Some(st)),
                Err(err) => Err(err),
            };
        }
        if e >= n {
            return Ok(None);
        }
        i = e + 1;
    }
    Ok(None)
}

/// The text that the bytes `b` spell in UTF-8, when they are valid UTF-8.
pub uninterp spec fn utf8_text(b: Seq<u8>) -> Option<Seq<char>>;

/// Relies on `String::from_utf8`: it returns the text of the bytes when they
/// are valid UTF-8 and an error otherwise, and its answer depends on the bytes
/// alone.
#[verifier::external_body]
fn text_of_bytes(b: Vec<u8>) -> (r: Option<String>)
    ensures
        match r {
            Some(s) => utf8_text(b@) == Some(s@),
            None => utf8_text(b@) is None,
        },
{
    String::from_utf8(b).ok()
}

/// What decoding the response bytes `b` yields, over plain values: an
/// encoding error when they are not UTF-8, else what their text decodes to.
pub open spec fn decode_spec(b: Seq<u8>) -> Result<Option<(i32, Seq<char>)>, QueryError> {
    match utf8_text(b) {
        None => Err(QueryError::EncodingError),
        Some(t) => decode_text_spec(t),
    }
}

/// Decodes one read of response bytes: the status of its first line that
/// begins with `error `, or `None` when no line does.
pub fn decode_result(data: Vec<u8>) -> (r: Result<Option<QueryStatus>, QueryError>)
    ensures
        result_view(r) == decode_spec(data@),
{
    match text_of_bytes(data) {
        Some(text) => decode_text(text.as_str()),
        None => Err(QueryError::EncodingError),
    }
}

/// The field `id=<id>`.
pub open spec fn id_field(id: Seq<char>) -> Seq<char> {
    seq!['i', 'd', '='] + id
}

/// The field `msg=<msg>`.
pub open spec fn msg_field(msg: Seq<char>) -> Seq<char> {
    seq!['m', 's', 'g', '='] + msg
}

/// The status line `error id=<id> msg=<msg>`.
pub open spec fn status_text(id: Seq<char>, msg: Seq<char>) -> Seq<char> {
    status_prefix() + (id_field(id) + (seq![' '] + msg_field(msg)))
}

/// Whether `c` occurs nowhere in `s`.
pub open spec fn lacks(s: Seq<char>, c: char) -> bool {
    forall|i: int| 0 <= i < s.len() ==> #[trigger] s[i] != c
}

/// Lines of `pre` that hold no status line can be skipped: the search in
/// `pre + x` from one of them goes on where `x` begins.
proof fn lemma_skip_lines(pre: Seq<char>, x: Seq<char>, i: int)
    requires
        0 <= i <= pre.len(),
        pre.len() == 0 || pre.last() == '\n',
        status_line_from(pre, i) is None,
    ensures
        status_line_from(pre + x, i) == status_line_from(pre + x, pre.len() as int),
    decreases pre.len() - i,
{
    let t = pre + x;
    if i < pre.len() {
        lemma_find_bounds(pre, '\n', i);
        let e = find(pre, '\n', i);
        assert(e < pre.len()) by {
            if e == pre.len() {
                assert(pre[pre.len() - 1] != '\n');
            }
        }
        assert forall|j: int| i <= j < e implies t[j] != '\n' by {
            assert(t[j] == pre[j]);
        }
        lemma_find_at(t, '\n', i, e);
        assert(line_at(t, i, e) =~= line_at(pre, i, e));
        lemma_skip_lines(pre, x, e + 1);
    }
}

proof fn lemma_status_text_fields(id: Seq<char>, msg: Seq<char>)
    requires
        lacks(id, ' '),
    ensures
        is_status_line(status_text(id, msg)),
        parse_status_line_spec(status_text(id, msg)) == match parse_i32_spec(id) {
            Some(v) => Some((v, msg)),
            None => None,
        },
{
    let line = status_text(id, msg);
    let idf = id_field(id);
    let msgf = msg_field(msg);
    assert(line.subrange(0, 6) =~= status_prefix());
    let rem = line.subrange(6, line.len() as int);
    assert(rem =~= idf + (seq![' '] + msgf));
    assert forall|j: int| 0 <= j < idf.len() implies rem[j] != ' ' by {
        assert(rem[j] == idf[j]);
        if j >= 3 {
            assert(idf[j] == id[j - 3]);
        }
    }
    assert(rem[idf.len() as int] == ' ');
    lemma_find_at(rem, ' ', 0, idf.len() as int);
    assert(rem.subrange(0, idf.len() as int) =~= idf);
    assert(rem.subrange(idf.len() as int + 1, rem.len() as int) =~= msgf);
    assert(idf[2] == '=');
    lemma_find_at(idf, '=', 0, 2);
    assert(msgf[3] == '=');
    lemma_find_at(msgf, '=', 0, 3);
    assert(idf.subrange(3, idf.len() as int) =~= id);
    assert(msgf.subrange(4, msgf.len() as int) =~= msg);
}

/// A status line with no newline in it is found wherever it stands among
/// other lines, provided no line before it begins with `error `.
proof fn lemma_status_line_located(pre: Seq<char>, line: Seq<char>, post: Seq<char>)
    requires
        pre.len() == 0 || pre.last() == '\n',
        status_line(pre) is None,
        is_status_line(line),
        lacks(line, '\n'),
        post.len() > 0 ==> line.last() != '\r',
        post.len() == 0 || post[0] == '\n',
    ensures
        status_line(pre + line + post) == Some(line),
{
    let t = pre + line + post;
    let p = pre.len() as int;
    assert(pre + line + post =~= pre + (line + post));
    lemma_skip_lines(pre, line + post, 0);
    let e = p + line.len();
    assert forall|j: int| p <= j < e implies t[j] != '\n' by {
        assert(t[j] == line[j - p]);
    }
    if post.len() > 0 {
        assert(t[e] == post[0]);
        assert(t[e - 1] == line.last());
    }
    lemma_find_at(t, '\n', p, e);
    assert(line_at(t, p, e) =~= line);
}

/// The conditions under which a status line with the message `msg` placed
/// between `pre` and `post` is the response's status line: `pre` is whole
/// lines none of which begins with `error `, `post` starts a new line, the
/// message holds no newline, and a `\r` that would end the message does not
/// stand before a newline.
pub open spec fn well_placed(pre: Seq<char>, msg: Seq<char>, post: Seq<char>) -> bool {
    &&& pre.len() == 0 || pre.last() == '\n'
    &&& forall|k: int| 0 <= k < lines(pre).len() ==> !is_status_line(#[trigger] lines(pre)[k])
    &&& lacks(msg, '\n')
    &&& post.len() > 0 && msg.len() > 0 ==> msg.last() != '\r'
    &&& post.len() == 0 || post[0] == '\n'
}

proof fn lemma_well_placed(pre: Seq<char>, id: Seq<char>, msg: Seq<char>, post: Seq<char>)
    requires
        well_placed(pre, msg, post),
        lacks(id, '\n'),
        lacks(id, ' '),
    ensures
        decode_text_spec(pre + status_text(id, msg) + post) == match parse_i32_spec(id) {
            Some(v) => Ok::<Option<(i32, Seq<char>)>, QueryError>(Some((v, msg))),
            None => Err(QueryError::MalformedStatus),
        },
{
    let line = status_text(id, msg);
    let ls = lines_from(pre, 0);
    assert forall|k: int| 0 <= k < ls.len() implies !is_status_line(#[trigger] ls[k]) by {
        assert(lines(pre)[k] == ls[k]);
    }
    lemma_no_status_line(pre, 0);
    lemma_status_text_fields(id, msg);
    assert forall|j: int| 0 <= j < line.len() implies #[trigger] line[j] != '\n' by {
        if j >= line.len() - msg.len() {
            assert(line[j] == msg[j - (line.len() - msg.len())]);
        } else if 9 <= j < 9 + id.len() {
            assert(line[j] == id[j - 9]);
        }
    }
    if post.len() > 0 {
        if msg.len() == 0 {
            assert(line.last() == '=');
        } else {
            assert(line.last() == msg.last());
        }
    }
    lemma_status_line_located(pre, line, post);
}

/// A status line `error id=<n> msg=<msg>` is found and read back as
/// `(n, msg)` wherever it stands among other lines, provided no line before it
/// begins with `error `.
pub proof fn lemma_decode_finds_status(
    data: Seq<u8>,
    pre: Seq<char>,
    n: i32,
    msg: Seq<char>,
    post: Seq<char>,
)
    requires
        well_placed(pre, msg, post),
        utf8_text(data) == Some(pre + status_text(int_text(n as int), msg) + post),
    ensures
        decode_spec(data) == Ok::<Option<(i32, Seq<char>)>, QueryError>(Some((n, msg))),
{
    lemma_parse_int_text(n);
    lemma_int_text_chars(n as int);
    lemma_well_placed(pre, int_text(n as int), msg, post);
}

/// A status line whose id is not an integer makes the decoding fail as
/// malformed.
pub proof fn lemma_decode_bad_id(
    data: Seq<u8>,
    pre: Seq<char>,
    id: Seq<char>,
    msg: Seq<char>,
    post: Seq<char>,
)
    requires
        well_placed(pre, msg, post),
        lacks(id, '\n'),
        lacks(id, ' '),
        parse_i32_spec(id) is None,
        utf8_text(data) == Some(pre + status_text(id, msg) + post),
    ensures
        decode_spec(data) == Err::<Option<(i32, Seq<char>)>, QueryError>(
            QueryError::MalformedStatus,
        ),
{
    lemma_well_placed(pre, id, msg, post);
}

/// A response none of whose lines begins with `error ` decodes to `None`.
pub proof fn lemma_decode_without_status(data: Seq<u8>, text: Seq<char>)
    requires
        utf8_text(data) == Some(text),
        forall|k: int| 0 <= k < lines(text).len() ==> !is_status_line(#[trigger] lines(text)[k]),
    ensures
        decode_spec(data) == Ok::<Option<(i32, Seq<char>)>, QueryError>(None),
{
    let ls = lines_from(text, 0);
    assert forall|k: int| 0 <= k < ls.len() implies !is_status_line(#[trigger] ls[k]) by {
        assert(lines(text)[k] == ls[k]);
    }
    lemma_no_status_line(text, 0);
}

/// Bytes that are not UTF-8 fail to decode with an encoding error, whatever
/// lines they might hold.
pub proof fn lemma_decode_bad_encoding(data: Seq<u8>)
    requires
        utf8_text(data) is None,
    ensures
        decode_spec(data) == Err::<Option<(i32, Seq<char>)>, QueryError>(
            QueryError::EncodingError,
        ),
{
}

/// Decoding depends on the bytes alone: two decodings of equal bytes give the
/// same result.
pub proof fn lemma_decode_deterministic(
    a: Seq<u8>,
    b: Seq<u8>,
    ra: Result<Option<QueryStatus>, QueryError>,
    rb: Result<Option<QueryStatus>, QueryError>,
)
    requires
        a == b,
        result_view(ra) == decode_spec(a),
        result_view(rb) == decode_spec(b),
    ensures
        result_view(ra) == result_view(rb),
{
}

} // verus!
