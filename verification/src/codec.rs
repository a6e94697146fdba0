//! Wire codec for the chat protocol envelope.
//!
//! An envelope is a JSON object of fixed shape
//! `{"messageType":k,"dataArray":a,"data":d}` where `k` is one of the three
//! recognized kind strings, `a` is `null` or an array of strings, and `d` is
//! `null` or a string.  Encoding is canonical (no whitespace, fields in that
//! order, only `\"` and `\\` escapes); decoding is strict and accepts exactly
//! the canonical form, failing closed on anything else.

use vstd::prelude::*;

verus! {

/// The closed enumeration of envelope kinds carried in `messageType`.
#[derive(Debug, Clone, Copy, PartialEq, Eq, Structural)]
pub enum MsgTypes {
    Users,
    Register,
    Message,
}

/// The wire envelope: kind, optional string-array payload, optional string
/// payload.
pub struct WebSocketMessage {
    pub message_type: MsgTypes,
    pub data_array: Option<Vec<String>>,
    pub data: Option<String>,
}

/// Mathematical model of an envelope: the kind and the payloads as
/// character sequences.
#[verifier::ext_equal]
pub ghost struct EnvModel {
    pub kind: MsgTypes,
    pub arr: Option<Seq<Seq<char>>>,
    pub dat: Option<Seq<char>>,
}

/// The model of an optional array payload.
pub open spec fn arr_view(a: Option<Vec<String>>) -> Option<Seq<Seq<char>>> {
    match a {
        Some(v) => Some(v.deep_view()),
        None => None,
    }
}

/// The model of an optional string payload.
pub open spec fn dat_view(d: Option<String>) -> Option<Seq<char>> {
    match d {
        Some(s) => Some(s@),
        None => None,
    }
}

impl View for WebSocketMessage {
    type V = EnvModel;

    open spec fn view(&self) -> EnvModel {
        EnvModel {
            kind: self.message_type,
            arr: arr_view(self.data_array),
            dat: dat_view(self.data),
        }
    }
}

/// Strict decoding rejects the frame as a whole: malformed text, an
/// unrecognized kind, or any departure from the canonical form.
pub struct DecodeError;

/// Converts a string slice to the vector of its characters.
pub fn chars_of(s: &str) -> (r: Vec<char>)
    ensures
        r@ == s@,
{
    let n = s.unicode_len();
    let mut r: Vec<char> = Vec::new();
    let mut i: usize = 0;
    while i < n
        invariant
            i <= n,
            n == s@.len(),
            r@ == s@.take(i as int),
        decreases n - i,
    {
        r.push(s.get_char(i));
        assert(r@ =~= s@.take(i + 1));
        i += 1;
    }
    assert(s@.take(n as int) =~= s@);
    r
}

/// Relies on `String: FromIterator<&char>`: collecting the characters of a
/// vector yields the string with exactly those characters in order.
#[verifier::external_body]
pub fn string_from_chars(v: &Vec<char>) -> (s: String)
    ensures
        s@ == v@,
{
    v.iter().collect()
}

/// The canonical escape of one character inside a JSON string: quote and
/// backslash are preceded by a backslash, every other character stands as
/// itself.
pub open spec fn esc_char(c: char) -> Seq<char> {
    if c == '"' || c == '\\' {
        seq!['\\', c]
    } else {
        seq![c]
    }
}

/// The canonical escape of a whole string.
pub open spec fn esc(s: Seq<char>) -> Seq<char>
    decreases s.len(),
{
    if s.len() == 0 {
        Seq::empty()
    } else {
        esc_char(s[0]) + esc(s.drop_first())
    }
}

/// A string payload as it stands on the wire: escaped and quoted.
pub open spec fn quoted(s: Seq<char>) -> Seq<char> {
    seq!['"'] + esc(s) + seq!['"']
}

proof fn lemma_esc_push(s: Seq<char>, c: char)
    ensures
        esc(s.push(c)) == esc(s) + esc_char(c),
    decreases s.len(),
{
    if s.len() == 0 {
        assert(s.push(c)[0] == c);
        assert(s.push(c).drop_first() =~= s);
        assert(esc(s) =~= Seq::<char>::empty());
        assert(esc(s.push(c)) =~= esc(s) + esc_char(c));
    } else {
        assert(s.push(c)[0] == s[0]);
        assert(s.push(c).drop_first() =~= s.drop_first().push(c));
        lemma_esc_push(s.drop_first(), c);
        assert(esc(s.push(c)) =~= esc(s) + esc_char(c));
    }
}

/// Appends the characters of `s` to `out`.
fn push_all(out: &mut Vec<char>, s: &Vec<char>)
    ensures
        final(out)@ == old(out)@ + s@,
{
    let mut i: usize = 0;
    while i < s.len()
        invariant
            i <= s.len(),
            out@ == old(out)@ + s@.take(i as int),
        decreases s.len() - i,
    {
        out.push(s[i]);
        assert(out@ =~= old(out)@ + s@.take(i + 1));
        i += 1;
    }
    assert(old(out)@ + s@.take(s@.len() as int) =~= old(out)@ + s@);
}

/// Appends the characters of the literal `s` to `out`.
fn push_lit(out: &mut Vec<char>, s: &str)
    ensures
        final(out)@ == old(out)@ + s@,
{
    let v = chars_of(s);
    push_all(out, &v);
}

/// The fixed leading text of a canonical envelope, up to the kind string.
pub open spec fn lit_head() -> Seq<char> {
    "{\"messageType\":"@
}

/// The fixed text between the kind string and the array payload.
pub open spec fn lit_arr() -> Seq<char> {
    ",\"dataArray\":"@
}

/// The fixed text between the array payload and the string payload.
pub open spec fn lit_dat() -> Seq<char> {
    ",\"data\":"@
}

/// The literal standing for an absent payload.
pub open spec fn lit_null() -> Seq<char> {
    "null"@
}

/// The wire spelling of each envelope kind.
pub open spec fn kind_lit(k: MsgTypes) -> Seq<char> {
    match k {
        MsgTypes::Users => "users"@,
        MsgTypes::Register => "register"@,
        MsgTypes::Message => "message"@,
    }
}

/// The kind named by a wire spelling, if recognized.
pub open spec fn kind_of(s: Seq<char>) -> Option<MsgTypes> {
    if s == "users"@ {
        Some(MsgTypes::Users)
    } else if s == "register"@ {
        Some(MsgTypes::Register)
    } else if s == "message"@ {
        Some(MsgTypes::Message)
    } else {
        None
    }
}

/// The members of a non-empty array payload, quoted and comma-separated.
pub open spec fn arr_items(a: Seq<Seq<char>>) -> Seq<char>
    decreases a.len(),
{
    if a.len() == 0 {
        Seq::empty()
    } else if a.len() == 1 {
        quoted(a[0])
    } else {
        quoted(a[0]) + seq![','] + arr_items(a.drop_first())
    }
}

/// The array payload on the wire: `null` when absent, else the bracketed
/// member list.
pub open spec fn arr_part(a: Option<Seq<Seq<char>>>) -> Seq<char> {
    match a {
        None => lit_null(),
        Some(xs) => seq!['['] + arr_items(xs) + seq![']'],
    }
}

/// The string payload on the wire: `null` when absent, else quoted.
pub open spec fn dat_part(d: Option<Seq<char>>) -> Seq<char> {
    match d {
        None => lit_null(),
        Some(s) => quoted(s),
    }
}

/// The canonical wire form of an envelope.
pub open spec fn spec_env(m: EnvModel) -> Seq<char> {
    lit_head() + quoted(kind_lit(m.kind)) + lit_arr() + arr_part(m.arr) + lit_dat() + dat_part(
        m.dat,
    ) + seq!['}']
}

/// Appends the escaped and quoted form of `s` to `out`.
fn push_quoted(out: &mut Vec<char>, s: &str)
    ensures
        final(out)@ == old(out)@ + quoted(s@),
{
    let v = chars_of(s);
    out.push('"');
    let ghost base = out@;
    let mut i: usize = 0;
    while i < v.len()
        invariant
            i <= v.len(),
            out@ == base + esc(v@.take(i as int)),
        decreases v.len() - i,
    {
        let c = v[i];
        if c == '"' || c == '\\' {
            out.push('\\');
            out.push(c);
        } else {
            out.push(c);
        }
        proof {
            lemma_esc_push(v@.take(i as int), c);
            assert(v@.take(i + 1) =~= v@.take(i as int).push(v@[i as int]));
            assert(out@ =~= base + esc(v@.take(i + 1)));
        }
        i += 1;
    }
    assert(v@.take(v@.len() as int) =~= v@);
    out.push('"');
    assert(out@ =~= old(out)@ + quoted(s@));
}

/// Appends the members of `v` from position `i` on, quoted and
/// comma-separated.
fn push_items(out: &mut Vec<char>, v: &Vec<String>, i: usize)
    requires
        i < v.len(),
    ensures
        final(out)@ == old(out)@ + arr_items(v.deep_view().skip(i as int)),
    decreases v.len() - i,
{
    let ghost rest = v.deep_view().skip(i as int);
    proof {
        assert(rest.len() == v.len() - i);
        assert(rest[0] == v.deep_view()[i as int]);
    }
    push_quoted(out, v[i].as_str());
    if i + 1 < v.len() {
        out.push(',');
        push_items(out, v, i + 1);
        proof {
            assert(rest.drop_first() =~= v.deep_view().skip(i + 1));
            assert(arr_items(rest) == quoted(rest[0]) + seq![','] + arr_items(rest.drop_first()));
            assert(final(out)@ =~= old(out)@ + arr_items(rest));
        }
    } else {
        proof {
            assert(rest.len() == 1);
            assert(arr_items(rest) == quoted(rest[0]));
        }
    }
}

/// Parses the body of a quoted string starting at `i` (just past the
/// opening quote): unescapes up to the closing quote and returns the content
/// together with the position just past the closing quote.
pub open spec fn sp_string(s: Seq<char>, i: int) -> Option<(Seq<char>, int)>
    decreases s.len() - i,
{
    if i < 0 || i >= s.len() {
        None
    } else if s[i] == '"' {
        Some((Seq::empty(), i + 1))
    } else if s[i] == '\\' {
        if i + 1 < s.len() && (s[i + 1] == '"' || s[i + 1] == '\\') {
            match sp_string(s, i + 2) {
                Some((c, j)) => Some((seq![s[i + 1]] + c, j)),
                None => None,
            }
        } else {
            None
        }
    } else {
        match sp_string(s, i + 1) {
            Some((c, j)) => Some((seq![s[i]] + c, j)),
            None => None,
        }
    }
}

/// A successful string parse lands strictly past where it started and
/// within the input.
pub proof fn lemma_sp_string_bounds(s: Seq<char>, i: int)
    ensures
        sp_string(s, i) matches Some((c, j)) ==> i + 1 < j <= s.len() || (j == i + 1 && s[i]
            == '"'),
    decreases s.len() - i,
{
    if 0 <= i && i < s.len() && s[i] != '"' {
        if s[i] == '\\' {
            if i + 1 < s.len() {
                lemma_sp_string_bounds(s, i + 2);
            }
        } else {
            lemma_sp_string_bounds(s, i + 1);
        }
    }
}

/// Parses a literal: succeeds exactly when `l` stands at `i`.
pub open spec fn sp_lit(s: Seq<char>, i: int, l: Seq<char>) -> Option<int> {
    if 0 <= i && i + l.len() <= s.len() && s.subrange(i, i + l.len() as int) == l {
        Some(i + l.len() as int)
    } else {
        None
    }
}

/// Parses a quoted string: an opening quote, then the string body.
pub open spec fn sp_qstr(s: Seq<char>, i: int) -> Option<(Seq<char>, int)> {
    if 0 <= i && i < s.len() && s[i] == '"' {
        sp_string(s, i + 1)
    } else {
        None
    }
}

/// Parses the members of a non-empty array from `i` up to and including the
/// closing bracket.
pub open spec fn sp_arr_items(s: Seq<char>, i: int) -> Option<(Seq<Seq<char>>, int)>
    decreases s.len() - i,
{
    match sp_qstr(s, i) {
        None => None,
        Some((x, j)) => if j < s.len() && s[j] == ']' {
            Some((seq![x], j + 1))
        } else if j < s.len() && s[j] == ',' {
            proof {
                lemma_sp_string_bounds(s, i + 1);
            }
            match sp_arr_items(s, j + 1) {
                None => None,
                Some((xs, k)) => Some((seq![x] + xs, k)),
            }
        } else {
            None
        },
    }
}

/// Parses the array payload: `null` or a bracketed member list.
pub open spec fn sp_arr(s: Seq<char>, i: int) -> Option<(Option<Seq<Seq<char>>>, int)> {
    match sp_lit(s, i, lit_null()) {
        Some(j) => Some((None, j)),
        None => if 0 <= i && i < s.len() && s[i] == '[' {
            if i + 1 < s.len() && s[i + 1] == ']' {
                Some((Some(Seq::empty()), i + 2))
            } else {
                match sp_arr_items(s, i + 1) {
                    None => None,
                    Some((xs, j)) => Some((Some(xs), j)),
                }
            }
        } else {
            None
        },
    }
}

/// Parses the string payload: `null` or a quoted string.
pub open spec fn sp_dat(s: Seq<char>, i: int) -> Option<(Option<Seq<char>>, int)> {
    match sp_lit(s, i, lit_null()) {
        Some(j) => Some((None, j)),
        None => match sp_qstr(s, i) {
            Some((x, j)) => Some((Some(x), j)),
            None => None,
        },
    }
}

/// The strict grammar of a whole frame: exactly the canonical envelope
/// form, consuming the entire input.  `None` stands for every malformed
/// frame, an unrecognized kind included.
pub open spec fn sp_env(s: Seq<char>) -> Option<EnvModel> {
    match sp_lit(s, 0, lit_head()) {
        None => None,
        Some(i1) => match sp_qstr(s, i1) {
            None => None,
            Some((kname, i2)) => match kind_of(kname) {
                None => None,
                Some(kind) => match sp_lit(s, i2, lit_arr()) {
                    None => None,
                    Some(i3) => match sp_arr(s, i3) {
                        None => None,
                        Some((arr, i4)) => match sp_lit(s, i4, lit_dat()) {
                            None => None,
                            Some(i5) => match sp_dat(s, i5) {
                                None => None,
                                Some((dat, i6)) => if i6 + 1 == s.len() && s[i6] == '}' {
                                    Some(EnvModel { kind, arr, dat })
                                } else {
                                    None
                                },
                            },
                        },
                    },
                },
            },
        },
    }
}

proof fn lemma_sub_shift(s: Seq<char>, i: int, n: int, u: Seq<char>, a: int, b: int)
    requires
        0 <= i,
        i + n <= s.len(),
        s.subrange(i, i + n) == u,
        0 <= a <= b <= n,
    ensures
        s.subrange(i + a, i + b) == u.subrange(a, b),
{
    assert forall|t: int| 0 <= t < b - a implies s.subrange(i + a, i + b)[t] == u.subrange(a, b)[t] by {
        assert(s.subrange(i, i + n)[a + t] == u[a + t]);
    }
    assert(s.subrange(i + a, i + b) =~= u.subrange(a, b));
}

proof fn lemma_sp_string_esc(s: Seq<char>, i: int, c: Seq<char>)
    requires
        0 <= i,
        i + esc(c).len() + 1 <= s.len(),
        s.subrange(i, i + esc(c).len() + 1) == esc(c) + seq!['"'],
    ensures
        sp_string(s, i) == Some((c, i + esc(c).len() + 1)),
    decreases c.len(),
{
    let e = esc(c);
    let sub = s.subrange(i, i + e.len() + 1);
    if c.len() == 0 {
        assert(e.len() == 0);
        assert(s[i] == sub[0]);
        assert(sub[0] == '"');
        assert(c =~= Seq::<char>::empty());
    } else {
        let c0 = c[0];
        let ct = c.drop_first();
        assert(e == esc_char(c0) + esc(ct));
        if c0 == '"' || c0 == '\\' {
            assert(e[0] == '\\' && e[1] == c0);
            assert(s[i] == sub[0] && sub[0] == e[0]);
            assert(s[i + 1] == sub[1] && sub[1] == e[1]);
            lemma_sub_shift(s, i, e.len() as int + 1, e + seq!['"'], 2, e.len() as int + 1);
            assert((e + seq!['"']).subrange(2, e.len() as int + 1) =~= esc(ct) + seq!['"']);
            lemma_sp_string_esc(s, i + 2, ct);
            assert(seq![s[i + 1]] + ct =~= c);
        } else {
            assert(e[0] == c0);
            assert(s[i] == sub[0] && sub[0] == c0);
            lemma_sub_shift(s, i, e.len() as int + 1, e + seq!['"'], 1, e.len() as int + 1);
            assert((e + seq!['"']).subrange(1, e.len() as int + 1) =~= esc(ct) + seq!['"']);
            lemma_sp_string_esc(s, i + 1, ct);
            assert(seq![s[i]] + ct =~= c);
        }
    }
}

proof fn lemma_sp_arr_items_enc(s: Seq<char>, i: int, xs: Seq<Seq<char>>)
    requires
        0 <= i,
        xs.len() > 0,
        i + arr_items(xs).len() + 1 <= s.len(),
        s.subrange(i, i + arr_items(xs).len() + 1) == arr_items(xs) + seq![']'],
    ensures
        sp_arr_items(s, i) == Some((xs, i + arr_items(xs).len() + 1)),
    decreases xs.len(),
{
    let a = arr_items(xs);
    let sub = s.subrange(i, i + a.len() + 1);
    let q = quoted(xs[0]);
    assert(q[0] == '"');
    if xs.len() == 1 {
        assert(a == q);
        assert(s[i] == sub[0] && sub[0] == q[0]);
        lemma_sub_shift(s, i, a.len() as int + 1, a + seq![']'], 1, q.len() as int);
        assert((a + seq![']']).subrange(1, q.len() as int) =~= esc(xs[0]) + seq!['"']);
        lemma_sp_string_esc(s, i + 1, xs[0]);
        let j = i + 1 + esc(xs[0]).len() + 1;
        assert(sp_qstr(s, i) == Some((xs[0], j)));
        assert(s[j] == sub[j - i] && sub[j - i] == ']');
        assert(seq![xs[0]] =~= xs);
    } else {
        let rest = xs.drop_first();
        assert(a == q + seq![','] + arr_items(rest));
        assert(s[i] == sub[0] && sub[0] == q[0]);
        lemma_sub_shift(s, i, a.len() as int + 1, a + seq![']'], 1, q.len() as int);
        assert((a + seq![']']).subrange(1, q.len() as int) =~= esc(xs[0]) + seq!['"']);
        lemma_sp_string_esc(s, i + 1, xs[0]);
        let j = i + 1 + esc(xs[0]).len() + 1;
        assert(sp_qstr(s, i) == Some((xs[0], j)));
        assert(j - i == q.len());
        assert(s[j] == sub[j - i] && sub[j - i] == ',');
        lemma_sub_shift(s, i, a.len() as int + 1, a + seq![']'], q.len() as int + 1, a.len() as int + 1);
        assert((a + seq![']']).subrange(q.len() as int + 1, a.len() as int + 1) =~= arr_items(rest) + seq![']']);
        lemma_sp_arr_items_enc(s, j + 1, rest);
        assert(seq![xs[0]] + rest =~= xs);
    }
}

/// Round trip: parsing the canonical wire form of any envelope model yields
/// exactly that model back.  Together with the contracts of `encode` and
/// `decode` this gives `decode(encode(e))` returning `Ok` of an envelope
/// whose model equals `e`'s, for every envelope `e`.
pub proof fn lemma_round_trip(m: EnvModel)
    ensures
        sp_env(spec_env(m)) == Some(m),
{
    reveal_strlit("null");
    reveal_strlit("users");
    reveal_strlit("register");
    reveal_strlit("message");
    let k = quoted(kind_lit(m.kind));
    let ap = arr_part(m.arr);
    let dp = dat_part(m.dat);
    let s = spec_env(m);
    assert(s == lit_head() + k + lit_arr() + ap + lit_dat() + dp + seq!['}']);
    // the fixed head
    let i1 = lit_head().len() as int;
    assert(s.subrange(0, i1) =~= lit_head());
    assert(sp_lit(s, 0, lit_head()) == Some(i1));
    // the quoted kind
    assert(s[i1] == k[0] && k[0] == '"');
    assert(s.subrange(i1 + 1, i1 + 1 + esc(kind_lit(m.kind)).len() + 1) =~= esc(kind_lit(m.kind))
        + seq!['"']);
    lemma_sp_string_esc(s, i1 + 1, kind_lit(m.kind));
    let i2 = i1 + k.len();
    assert(sp_qstr(s, i1) == Some((kind_lit(m.kind), i2)));
    assert(kind_of(kind_lit(m.kind)) == Some(m.kind));
    // the fixed text before the array payload
    let i3 = i2 + lit_arr().len();
    assert(s.subrange(i2, i3) =~= lit_arr());
    assert(sp_lit(s, i2, lit_arr()) == Some(i3));
    // the array payload
    let i4 = i3 + ap.len();
    match m.arr {
        None => {
            assert(ap == lit_null());
            assert(s.subrange(i3, i3 + lit_null().len() as int) =~= lit_null());
            assert(sp_arr(s, i3) == Some((None::<Seq<Seq<char>>>, i4)));
        },
        Some(xs) => {
            assert(s[i3] == ap[0] && ap[0] == '[');
            assert(sp_lit(s, i3, lit_null()) is None) by {
                if 0 <= i3 && i3 + lit_null().len() <= s.len() && s.subrange(
                    i3,
                    i3 + lit_null().len() as int,
                ) == lit_null() {
                    assert(s.subrange(i3, i3 + lit_null().len() as int)[0] == s[i3]);
                }
            }
            if xs.len() == 0 {
                assert(arr_items(xs) =~= Seq::<char>::empty());
                assert(ap.len() == 2);
                assert(s[i3 + 1] == ap[1] && ap[1] == ']');
                assert(sp_arr(s, i3) matches Some((a, j)) && j == i4 && a == Some(
                    Seq::<Seq<char>>::empty(),
                ));
                assert(Some(Seq::<Seq<char>>::empty()) =~= m.arr);
            } else {
                assert(s[i3 + 1] == ap[1]);
                assert(ap[1] == arr_items(xs)[0]);
                assert(arr_items(xs)[0] == quoted(xs[0])[0] && quoted(xs[0])[0] == '"');
                assert(s.subrange(i3 + 1, i3 + 1 + arr_items(xs).len() + 1) =~= arr_items(xs)
                    + seq![']']);
                lemma_sp_arr_items_enc(s, i3 + 1, xs);
                assert(sp_arr(s, i3) == Some((Some(xs), i4)));
            }
        },
    }
    // the fixed text before the string payload
    let i5 = i4 + lit_dat().len();
    assert(s.subrange(i4, i5) =~= lit_dat());
    assert(sp_lit(s, i4, lit_dat()) == Some(i5));
    // the string payload
    let i6 = i5 + dp.len();
    match m.dat {
        None => {
            assert(dp == lit_null());
            assert(s.subrange(i5, i5 + lit_null().len() as int) =~= lit_null());
            assert(sp_dat(s, i5) == Some((None::<Seq<char>>, i6)));
        },
        Some(d) => {
            assert(s[i5] == dp[0] && dp[0] == '"');
            assert(sp_lit(s, i5, lit_null()) is None) by {
                if 0 <= i5 && i5 + lit_null().len() <= s.len() && s.subrange(
                    i5,
                    i5 + lit_null().len() as int,
                ) == lit_null() {
                    assert(s.subrange(i5, i5 + lit_null().len() as int)[0] == s[i5]);
                }
            }
            assert(s.subrange(i5 + 1, i5 + 1 + esc(d).len() + 1) =~= esc(d) + seq!['"']);
            lemma_sp_string_esc(s, i5 + 1, d);
            assert(sp_dat(s, i5) == Some((Some(d), i6)));
        },
    }
    // the closing brace, and nothing after it
    assert(s[i6] == '}');
    assert(i6 + 1 == s.len());
    assert(sp_env(s) matches Some(r) && r =~= m);
}

/// Encodes an envelope into its canonical wire form.  Encoding never fails:
/// the result is exactly `spec_env` of the envelope's model.
pub fn encode(e: &WebSocketMessage) -> (r: String)
    ensures
        r@ == spec_env(e@),
{
    let mut out: Vec<char> = Vec::new();
    push_lit(&mut out, "{\"messageType\":");
    match e.message_type {
        MsgTypes::Users => push_quoted(&mut out, "users"),
        MsgTypes::Register => push_quoted(&mut out, "register"),
        MsgTypes::Message => push_quoted(&mut out, "message"),
    }
    push_lit(&mut out, ",\"dataArray\":");
    match &e.data_array {
        None => push_lit(&mut out, "null"),
        Some(v) => {
            out.push('[');
            if v.len() > 0 {
                push_items(&mut out, v, 0);
                proof {
                    assert(v.deep_view().skip(0) =~= v.deep_view());
                }
            } else {
                proof {
                    assert(v.deep_view() =~= Seq::<Seq<char>>::empty());
                }
            }
            out.push(']');
        },
    }
    push_lit(&mut out, ",\"data\":");
    match &e.data {
        None => push_lit(&mut out, "null"),
        Some(s) => push_quoted(&mut out, s.as_str()),
    }
    out.push('}');
    assert(out@ =~= spec_env(e@));
    string_from_chars(&out)
}

/// Compares two character vectors.
fn chars_eq(a: &Vec<char>, b: &Vec<char>) -> (r: bool)
    ensures
        r == (a@ == b@),
{
    if a.len() != b.len() {
        proof {
            if a@ == b@ {
                assert(a@.len() == b@.len());
            }
        }
        return false;
    }
    let mut k: usize = 0;
    while k < a.len()
        invariant
            k <= a.len(),
            a.len() == b.len(),
            forall|t: int| 0 <= t < k ==> a@[t] == b@[t],
        decreases a.len() - k,
    {
        if a[k] != b[k] {
            proof {
                if a@ == b@ {
                    assert(a@[k as int] == b@[k as int]);
                }
            }
            return false;
        }
        k += 1;
    }
    proof {
        assert(a@ =~= b@);
    }
    true
}

/// Matches the literal `l` at position `i`.
fn p_lit(v: &Vec<char>, i: usize, l: &str) -> (r: Option<usize>)
    requires
        i <= v.len(),
    ensures
        match r {
            Some(j) => sp_lit(v@, i as int, l@) == Some(j as int) && i <= j <= v.len(),
            None => sp_lit(v@, i as int, l@) is None,
        },
{
    let lv = chars_of(l);
    if v.len() - i < lv.len() {
        return None;
    }
    let mut k: usize = 0;
    while k < lv.len()
        invariant
            k <= lv.len(),
            i + lv.len() <= v.len(),
            lv@ == l@,
            forall|t: int| 0 <= t < k ==> v@[i + t] == lv@[t],
        decreases lv.len() - k,
    {
        if v[i + k] != lv[k] {
            proof {
                if sp_lit(v@, i as int, l@) is Some {
                    assert(v@.subrange(i as int, i + l@.len())[k as int] == v@[i + k]);
                }
            }
            return None;
        }
        k += 1;
    }
    proof {
        assert(v@.subrange(i as int, i + l@.len()) =~= l@);
    }
    Some(i + lv.len())
}

/// Parses a string body from position `i` (just past the opening quote).
fn p_string(v: &Vec<char>, i: usize) -> (r: Option<(Vec<char>, usize)>)
    ensures
        match r {
            Some((c, j)) => sp_string(v@, i as int) == Some((c@, j as int)) && i < j <= v.len(),
            None => sp_string(v@, i as int) is None,
        },
    decreases v.len() - i,
{
    if i >= v.len() {
        return None;
    }
    let c = v[i];
    if c == '"' {
        let e: Vec<char> = Vec::new();
        assert(e@ =~= Seq::<char>::empty());
        return Some((e, i + 1));
    }
    if c == '\\' {
        if i + 1 < v.len() {
            let d = v[i + 1];
            if d == '"' || d == '\\' {
                match p_string(v, i + 2) {
                    None => None,
                    Some((tail, j)) => {
                        let ghost tv = tail@;
                        let mut out: Vec<char> = Vec::new();
                        out.push(d);
                        let mut tail = tail;
                        out.append(&mut tail);
                        assert(out@ =~= seq![v@[i + 1]] + tv);
                        Some((out, j))
                    },
                }
            } else {
                None
            }
        } else {
            None
        }
    } else {
        match p_string(v, i + 1) {
            None => None,
            Some((tail, j)) => {
                let ghost tv = tail@;
                let mut out: Vec<char> = Vec::new();
                out.push(c);
                let mut tail = tail;
                out.append(&mut tail);
                assert(out@ =~= seq![v@[i as int]] + tv);
                Some((out, j))
            },
        }
    }
}

/// Parses the members of a non-empty array from position `i` up to and
/// including the closing bracket.
fn p_items(v: &Vec<char>, i: usize) -> (r: Option<(Vec<String>, usize)>)
    ensures
        match r {
            Some((xs, j)) => sp_arr_items(v@, i as int) == Some((xs.deep_view(), j as int)) && j
                <= v.len(),
            None => sp_arr_items(v@, i as int) is None,
        },
    decreases v.len() - i,
{
    if i >= v.len() {
        return None;
    }
    if v[i] != '"' {
        return None;
    }
    match p_string(v, i + 1) {
        None => None,
        Some((content, j)) => {
            let s0 = string_from_chars(&content);
            if j < v.len() {
                let t = v[j];
                if t == ']' {
                    let mut xs: Vec<String> = Vec::new();
                    xs.push(s0);
                    assert(xs.deep_view() =~= seq![content@]);
                    Some((xs, j + 1))
                } else if t == ',' {
                    match p_items(v, j + 1) {
                        None => None,
                        Some((rest, k)) => {
                            let ghost rd = rest.deep_view();
                            let mut xs = rest;
                            xs.insert(0, s0);
                            proof {
                                assert forall|t2: int| 0 <= t2 < xs.deep_view().len() implies xs
                                    .deep_view()[t2] == (seq![content@] + rd)[t2] by {
                                    if t2 > 0 {
                                        assert(xs@[t2] == rest@[t2 - 1]);
                                    }
                                }
                                assert(xs.deep_view() =~= seq![content@] + rd);
                            }
                            Some((xs, k))
                        },
                    }
                } else {
                    None
                }
            } else {
                None
            }
        },
    }
}

/// Parses the array payload at position `i`.
fn p_arr(v: &Vec<char>, i: usize) -> (r: Option<(Option<Vec<String>>, usize)>)
    requires
        i <= v.len(),
    ensures
        match r {
            Some((a, j)) => sp_arr(v@, i as int) == Some((arr_view(a), j as int)) && j <= v.len(),
            None => sp_arr(v@, i as int) is None,
        },
{
    match p_lit(v, i, "null") {
        Some(j) => Some((None, j)),
        None => {
            if i < v.len() {
                if v[i] == '[' {
                    if i + 1 < v.len() {
                        if v[i + 1] == ']' {
                            let e: Vec<String> = Vec::new();
                            assert(e.deep_view() =~= Seq::<Seq<char>>::empty());
                            return Some((Some(e), i + 2));
                        }
                    }
                    match p_items(v, i + 1) {
                        None => None,
                        Some((xs, j)) => Some((Some(xs), j)),
                    }
                } else {
                    None
                }
            } else {
                None
            }
        },
    }
}

/// Parses the string payload at position `i`.
fn p_dat(v: &Vec<char>, i: usize) -> (r: Option<(Option<String>, usize)>)
    requires
        i <= v.len(),
    ensures
        match r {
            Some((d, j)) => sp_dat(v@, i as int) == Some((dat_view(d), j as int)) && j <= v.len(),
            None => sp_dat(v@, i as int) is None,
        },
{
    match p_lit(v, i, "null") {
        Some(j) => Some((None, j)),
        None => {
            if i < v.len() {
                if v[i] == '"' {
                    match p_string(v, i + 1) {
                        None => None,
                        Some((content, j)) => {
                            let s0 = string_from_chars(&content);
                            Some((Some(s0), j))
                        },
                    }
                } else {
                    None
                }
            } else {
                None
            }
        },
    }
}

/// Decodes a frame.  Decoding is strict: the result is `Ok` exactly when
/// the input is the canonical wire form of some envelope, and then the
/// returned envelope's model is the one the grammar gives; every other
/// input — malformed text, an unrecognized kind, trailing text — yields an
/// error.
pub fn decode(s: &str) -> (r: Result<WebSocketMessage, DecodeError>)
    ensures
        match r {
            Ok(env) => sp_env(s@) == Some(env@),
            Err(_) => sp_env(s@) is None,
        },
{
    let v = chars_of(s);
    let i1 = match p_lit(&v, 0, "{\"messageType\":") {
        None => {
            return Err(DecodeError);
        },
        Some(j) => j,
    };
    if i1 >= v.len() {
        return Err(DecodeError);
    }
    if v[i1] != '"' {
        return Err(DecodeError);
    }
    let (kname, i2) = match p_string(&v, i1 + 1) {
        None => {
            return Err(DecodeError);
        },
        Some(x) => x,
    };
    let ku = chars_of("users");
    let kr = chars_of("register");
    let km = chars_of("message");
    let kind: MsgTypes = if chars_eq(&kname, &ku) {
        MsgTypes::Users
    } else if chars_eq(&kname, &kr) {
        MsgTypes::Register
    } else if chars_eq(&kname, &km) {
        MsgTypes::Message
    } else {
        return Err(DecodeError);
    };
    assert(kind_of(kname@) == Some(kind));
    let i3 = match p_lit(&v, i2, ",\"dataArray\":") {
        None => {
            return Err(DecodeError);
        },
        Some(j) => j,
    };
    let (arr, i4) = match p_arr(&v, i3) {
        None => {
            return Err(DecodeError);
        },
        Some(x) => x,
    };
    let i5 = match p_lit(&v, i4, ",\"data\":") {
        None => {
            return Err(DecodeError);
        },
        Some(j) => j,
    };
    let (dat, i6) = match p_dat(&v, i5) {
        None => {
            return Err(DecodeError);
        },
        Some(x) => x,
    };
    if i6 < v.len() && i6 + 1 == v.len() && v[i6] == '}' {
        let env = WebSocketMessage { message_type: kind, data_array: arr, data: dat };
        assert(sp_env(s@) == Some(env@));
        Ok(env)
    } else {
        Err(DecodeError)
    }
}

/// One entry of the message history, as carried JSON-encoded inside the
/// string payload of a server-to-client `Message` envelope:
/// `{"from":f,"message":t}`.
pub struct MessageData {
    pub from: String,
    pub message: String,
}

/// Mathematical model of a history entry.
#[verifier::ext_equal]
pub ghost struct EntryModel {
    pub from: Seq<char>,
    pub message: Seq<char>,
}

impl View for MessageData {
    type V = EntryModel;

    open spec fn view(&self) -> EntryModel {
        EntryModel { from: self.from@, message: self.message@ }
    }
}

impl DeepView for MessageData {
    type V = EntryModel;

    open spec fn deep_view(&self) -> EntryModel {
        self@
    }
}

/// The fixed leading text of a canonical history entry.
pub open spec fn lit_efrom() -> Seq<char> {
    "{\"from\":"@
}

/// The fixed text between the sender and the message text.
pub open spec fn lit_emsg() -> Seq<char> {
    ",\"message\":"@
}

/// The strict grammar of a history entry: exactly the canonical form,
/// consuming the entire input.
pub open spec fn sp_entry(s: Seq<char>) -> Option<EntryModel> {
    match sp_lit(s, 0, lit_efrom()) {
        None => None,
        Some(i1) => match sp_qstr(s, i1) {
            None => None,
            Some((f, i2)) => match sp_lit(s, i2, lit_emsg()) {
                None => None,
                Some(i3) => match sp_qstr(s, i3) {
                    None => None,
                    Some((t, i4)) => if i4 + 1 == s.len() && s[i4] == '}' {
                        Some(EntryModel { from: f, message: t })
                    } else {
                        None
                    },
                },
            },
        },
    }
}

/// Decodes a history entry, strictly: `Ok` exactly when the input is the
/// canonical form of some entry, and then the entry's model is the one the
/// grammar gives.
pub fn decode_entry(s: &str) -> (r: Result<MessageData, DecodeError>)
    ensures
        match r {
            Ok(e) => sp_entry(s@) == Some(e@),
            Err(_) => sp_entry(s@) is None,
        },
{
    let v = chars_of(s);
    let i1 = match p_lit(&v, 0, "{\"from\":") {
        None => {
            return Err(DecodeError);
        },
        Some(j) => j,
    };
    if i1 >= v.len() {
        return Err(DecodeError);
    }
    if v[i1] != '"' {
        return Err(DecodeError);
    }
    let (f, i2) = match p_string(&v, i1 + 1) {
        None => {
            return Err(DecodeError);
        },
        Some(x) => x,
    };
    let i3 = match p_lit(&v, i2, ",\"message\":") {
        None => {
            return Err(DecodeError);
        },
        Some(j) => j,
    };
    if i3 >= v.len() {
        return Err(DecodeError);
    }
    if v[i3] != '"' {
        return Err(DecodeError);
    }
    let (t, i4) = match p_string(&v, i3 + 1) {
        None => {
            return Err(DecodeError);
        },
        Some(x) => x,
    };
    if i4 < v.len() && i4 + 1 == v.len() && v[i4] == '}' {
        let e = MessageData { from: string_from_chars(&f), message: string_from_chars(&t) };
        assert(sp_entry(s@) == Some(e@));
        Ok(e)
    } else {
        Err(DecodeError)
    }
}

} // verus!
