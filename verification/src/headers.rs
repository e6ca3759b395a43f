//! Response headers with their session cookies blanked, and the text forms
//! under which they are stored and printed.

use crate::bindings::{
    base64_encode, base64_len, base64_text, cookie_parse, cookie_parts, json_string,
    json_string_text, lossy_text, utf8_lossy, value_end,
};
use crate::text::{join, joined, lemma_texts_push, texts};
use vstd::prelude::*;
use vstd::utf8::encode_utf8;

verus! {

/// The size of the buffer that the printed form of a header set must fit in.
pub const MAX_HEADER_BUFFER_SIZE: usize = 65536;

/// The most bytes of JSON whose Base64 text fits in that buffer.
pub const MAX_ENCODABLE_LEN: usize = 49152;

/// One header as it came over the wire: its name and the bytes of one value.
#[derive(Debug, Clone)]
pub struct WireHeader {
    pub name: String,
    pub value: Vec<u8>,
}

/// One name of a header set with all its values, in the order of the wire.
#[derive(Debug, Clone)]
pub struct HeaderEntry {
    pub name: String,
    pub values: Vec<String>,
}

/// The headers of a response, grouped by name, with the value of every
/// cookie a server set blanked.
#[derive(Debug, Clone)]
pub struct AnonymizedHttpHeaders(pub Vec<HeaderEntry>);

impl View for WireHeader {
    type V = (Seq<char>, Seq<u8>);

    open spec fn view(&self) -> (Seq<char>, Seq<u8>) {
        (self.name@, self.value@)
    }
}

impl View for HeaderEntry {
    type V = (Seq<char>, Seq<Seq<char>>);

    open spec fn view(&self) -> (Seq<char>, Seq<Seq<char>>) {
        (self.name@, texts(self.values@))
    }
}

impl View for AnonymizedHttpHeaders {
    type V = Seq<(Seq<char>, Seq<Seq<char>>)>;

    open spec fn view(&self) -> Seq<(Seq<char>, Seq<Seq<char>>)> {
        Seq::new(self.0@.len(), |i: int| self.0@[i]@)
    }
}

/// The headers of `wire` as pairs of name and value bytes.
pub open spec fn wire_view(wire: Seq<WireHeader>) -> Seq<(Seq<char>, Seq<u8>)> {
    Seq::new(wire.len(), |i: int| wire[i]@)
}

/// The name of the header by which a server sets a cookie, in lower case.
pub open spec fn set_cookie_name() -> Seq<char> {
    seq!['s', 'e', 't', '-', 'c', 'o', 'o', 'k', 'i', 'e']
}

/// Whether `c` is the lower-case character `lower` or its upper-case form.
pub open spec fn same_ignoring_case(c: char, lower: char) -> bool {
    c == lower || ('A' <= c && c <= 'Z' && c as int + 32 == lower as int)
}

/// Whether `name` is `set-cookie`, in whatever case.
pub open spec fn is_set_cookie(name: Seq<char>) -> bool {
    &&& name.len() == 10
    &&& forall|i: int| 0 <= i < 10 ==> same_ignoring_case(#[trigger] name[i], set_cookie_name()[i])
}

/// A cookie without its value: the cookie's name, an equals sign, and what
/// follows name and value in the cookie's text, which are its attributes.
pub open spec fn blanked(name: Seq<char>, value: Seq<char>, text: Seq<char>) -> Seq<char> {
    let cut = value_end(name, value);
    if cut <= text.len() {
        name + seq!['='] + text.subrange(cut, text.len() as int)
    } else {
        name + seq!['=']
    }
}

/// The value under which a header is kept: its bytes decoded, and for a
/// cookie the cookie read from the decoded text, without its value. A
/// cookie that cannot be read is blanked whole: nothing of it is kept but
/// the fact that the header came.
pub open spec fn anonymized(header: (Seq<char>, Seq<u8>)) -> Seq<char> {
    if is_set_cookie(header.0) {
        match cookie_parts(lossy_text(header.1)) {
            Some(parts) => blanked(parts.0, parts.1, parts.2),
            None => Seq::empty(),
        }
    } else {
        lossy_text(header.1)
    }
}

/// The names of `wire`, each once, in the order in which they first occur.
pub open spec fn names_of(wire: Seq<(Seq<char>, Seq<u8>)>) -> Seq<Seq<char>>
    decreases wire.len(),
{
    if wire.len() == 0 {
        Seq::empty()
    } else {
        let before = names_of(wire.drop_last());
        if before.contains(wire.last().0) {
            before
        } else {
            before.push(wire.last().0)
        }
    }
}

/// The values kept for `name`, in the order of the wire.
pub open spec fn values_of(wire: Seq<(Seq<char>, Seq<u8>)>, name: Seq<char>) -> Seq<Seq<char>>
    decreases wire.len(),
{
    if wire.len() == 0 {
        Seq::empty()
    } else {
        let before = values_of(wire.drop_last(), name);
        if wire.last().0 == name {
            before.push(anonymized(wire.last()))
        } else {
            before
        }
    }
}

/// The header set of `wire`: every name once, with all its values.
pub open spec fn grouped(wire: Seq<(Seq<char>, Seq<u8>)>) -> Seq<(Seq<char>, Seq<Seq<char>>)> {
    Seq::new(names_of(wire).len(), |k: int| (names_of(wire)[k], values_of(wire, names_of(wire)[k])))
}

/// The JSON array of the string literals of `values`.
pub open spec fn json_list(values: Seq<Seq<char>>) -> Seq<char> {
    seq!['['] + joined(values.map_values(|v: Seq<char>| json_string_text(v)), seq![',']) + seq![']']
}

/// One member of the JSON object of a header set: the name, a colon and the
/// array of the values.
pub open spec fn json_member(entry: (Seq<char>, Seq<Seq<char>>)) -> Seq<char> {
    json_string_text(entry.0) + seq![':'] + json_list(entry.1)
}

/// The JSON object of a header set, without any white space.
pub open spec fn json_object(entries: Seq<(Seq<char>, Seq<Seq<char>>)>) -> Seq<char> {
    seq!['{'] + joined(
        entries.map_values(|e: (Seq<char>, Seq<Seq<char>>)| json_member(e)),
        seq![','],
    ) + seq!['}']
}

/// The printed form of a header set whose JSON is `json`: the Base64 text of
/// the JSON's bytes where that text fits the buffer, three dots where it
/// does not.
pub open spec fn blob_text(json: Seq<char>) -> Seq<char> {
    let bytes = encode_utf8(json);
    if base64_len(bytes.len()) <= MAX_HEADER_BUFFER_SIZE {
        base64_text(bytes)
    } else {
        seq!['.', '.', '.']
    }
}

/// A cookie that was read is kept with its name and its attributes and
/// without its value: what is kept starts with the name and an equals sign,
/// goes on with exactly what the cookie's text holds after its value, and
/// is shorter than the cookie's text by the length of the value.
pub proof fn lemma_blanked_keeps_name_and_attributes(
    name: Seq<char>,
    value: Seq<char>,
    text: Seq<char>,
)
    requires
        value_end(name, value) <= text.len(),
        text.subrange(0, value_end(name, value)) == name + seq!['='] + value,
    ensures
        blanked(name, value, text).subrange(0, name.len() + 1int) == name + seq!['='],
        blanked(name, value, text).subrange(0, name.len() + 1int) == text.subrange(
            0,
            name.len() + 1int,
        ),
        blanked(name, value, text).skip(name.len() + 1int) == text.skip(value_end(name, value)),
        blanked(name, value, text).len() + value.len() == text.len(),
        value.len() == 0 ==> blanked(name, value, text) == text,
{
    let cut = value_end(name, value);
    let eq = name.len() + 1int;
    let kept = blanked(name, value, text);
    let head = text.subrange(0, cut);
    assert(kept.subrange(0, eq) =~= name + seq!['=']);
    assert(text.subrange(0, eq) =~= head.subrange(0, eq));
    assert(head.subrange(0, eq) =~= name + seq!['=']);
    assert(kept.skip(eq) =~= text.skip(cut));
    if value.len() == 0 {
        assert(kept =~= text);
    }
}

/// No name occurs twice among the names of a wire.
pub proof fn lemma_names_distinct(wire: Seq<(Seq<char>, Seq<u8>)>)
    ensures
        forall|a: int, b: int|
            0 <= a < b < names_of(wire).len() ==> names_of(wire)[a] != names_of(wire)[b],
    decreases wire.len(),
{
    if wire.len() > 0 {
        lemma_names_distinct(wire.drop_last());
        let before = names_of(wire.drop_last());
        let names = names_of(wire);
        assert forall|a: int, b: int| 0 <= a < b < names.len() implies names[a] != names[b] by {
            if b < before.len() {
                assert(names[a] == before[a] && names[b] == before[b]);
            } else {
                assert(names[b] == wire.last().0);
                assert(names[a] == before[a]);
            }
        }
    }
}

/// A name that is not among the names of a wire has no values.
pub proof fn lemma_values_of_absent(wire: Seq<(Seq<char>, Seq<u8>)>, name: Seq<char>)
    requires
        !names_of(wire).contains(name),
    ensures
        values_of(wire, name).len() == 0,
    decreases wire.len(),
{
    if wire.len() > 0 {
        let before = names_of(wire.drop_last());
        if before.contains(wire.last().0) {
            lemma_values_of_absent(wire.drop_last(), name);
        } else {
            assert(before.push(wire.last().0).last() == wire.last().0);
            assert forall|k: int| 0 <= k < before.len() implies before[k] != name by {
                assert(before.push(wire.last().0)[k] == before[k]);
            }
            lemma_values_of_absent(wire.drop_last(), name);
        }
    }
}

/// How the header set grows by one header: the value joins the entry of its
/// name, or opens a new entry at the end.
pub proof fn lemma_grouped_push(wire: Seq<(Seq<char>, Seq<u8>)>, header: (Seq<char>, Seq<u8>))
    ensures
        forall|k: int|
            0 <= k < names_of(wire).len() && names_of(wire)[k] == header.0 ==> grouped(
                wire.push(header),
            ) == grouped(wire).update(
                k,
                (header.0, values_of(wire, header.0).push(anonymized(header))),
            ),
        !names_of(wire).contains(header.0) ==> grouped(wire.push(header)) == grouped(wire).push(
            (header.0, seq![anonymized(header)]),
        ),
{
    let more = wire.push(header);
    assert(more.drop_last() =~= wire);
    lemma_names_distinct(wire);
    if names_of(wire).contains(header.0) {
        assert forall|k: int|
            0 <= k < names_of(wire).len() && names_of(wire)[k] == header.0 implies grouped(more)
            == grouped(wire).update(
            k,
            (header.0, values_of(wire, header.0).push(anonymized(header))),
        ) by {
            assert(grouped(more) =~= grouped(wire).update(
                k,
                (header.0, values_of(wire, header.0).push(anonymized(header))),
            ));
        }
    } else {
        lemma_values_of_absent(wire, header.0);
        assert(values_of(more, header.0) =~= seq![anonymized(header)]);
        assert(grouped(more) =~= grouped(wire).push((header.0, seq![anonymized(header)])));
    }
}

/// Whether `name` is `set-cookie`, in whatever case.
pub fn is_set_cookie_name(name: &str) -> (yes: bool)
    ensures
        yes == is_set_cookie(name@),
{
    broadcast use vstd::string::is_ascii_spec_bytes;

    if !name.is_ascii() {
        assert(!is_set_cookie(name@)) by {
            if is_set_cookie(name@) {
                assert forall|i: int| 0 <= i < name@.len() implies '\0' <= #[trigger] name@[i]
                    <= '\u{7f}' by {
                    assert(same_ignoring_case(name@[i], set_cookie_name()[i]));
                }
            }
        }
        return false;
    }
    let bytes = name.as_bytes();
    if bytes.len() != 10 {
        return false;
    }
    let lower: [u8; 10] = [115, 101, 116, 45, 99, 111, 111, 107, 105, 101];
    let mut i: usize = 0;
    while i < 10
        invariant
            0 <= i <= 10,
            name@.len() == 10,
            bytes@.len() == 10,
            vstd::string::is_ascii(name),
            forall|j: int| 0 <= j < 10 ==> bytes@[j] == #[trigger] name@[j] as u8,
            lower@ == seq![115u8, 101, 116, 45, 99, 111, 111, 107, 105, 101],
            forall|j: int| 0 <= j < i ==> same_ignoring_case(#[trigger] name@[j], set_cookie_name()[j]),
        decreases 10 - i,
    {
        let b = bytes[i];
        let l = lower[i];
        assert(b == name@[i as int] as u8);
        assert('\0' <= name@[i as int] <= '\u{7f}');
        assert(l == set_cookie_name()[i as int] as u8);
        assert(l == 45 || 97 <= l <= 122);
        let same = b == l || (65 <= b && b <= 90 && b + 32 == l);
        if !same {
            assert(!same_ignoring_case(name@[i as int], set_cookie_name()[i as int]));
            return false;
        }
        i += 1;
    }
    true
}

/// Cuts the value out of a cookie: gives the name, an equals sign, and what
/// follows name and value in the cookie's text.
pub fn blank_cookie_value(name: &str, value: &str, text: &str) -> (out: String)
    ensures
        out@ == blanked(name@, value@, text@),
{
    proof {
        reveal_strlit("=");
        assert("="@ =~= seq!['=']);
    }
    let mut out = name.to_owned();
    out.append("=");
    let len = text.unicode_len();
    let name_len = name.unicode_len();
    let value_len = value.unicode_len();
    if name_len < len && value_len <= len - name_len - 1 {
        out.append(text.substring_char(name_len + 1 + value_len, len));
    }
    out
}

/// The value under which the header `name: raw` is kept.
pub fn anonymize_value(name: &str, raw: &[u8]) -> (out: String)
    ensures
        out@ == anonymized((name@, raw@)),
{
    let text = utf8_lossy(raw);
    if is_set_cookie_name(name) {
        match cookie_parse(text.as_str()) {
            Some((cookie_name, value, rendered)) => blank_cookie_value(
                cookie_name.as_str(),
                value.as_str(),
                rendered.as_str(),
            ),
            None => String::new(),
        }
    } else {
        text
    }
}

/// The JSON string literal of `text`.
pub fn quoted(text: &str) -> (literal: String)
    ensures
        literal@ == json_string_text(text@),
{
    match json_string(text) {
        Ok(literal) => literal,
        // Writing a string slice into memory has no way to fail.
        Err(_) => String::new(),
    }
}

/// The JSON array of the string literals of `values`.
pub fn json_list_text(values: &Vec<String>) -> (json: String)
    ensures
        json@ == json_list(texts(values@)),
{
    let n = values.len();
    let mut literals: Vec<String> = Vec::new();
    let mut i: usize = 0;
    while i < n
        invariant
            0 <= i <= n,
            n == values@.len(),
            literals@.len() == i,
            forall|k: int| 0 <= k < i ==> (#[trigger] literals@[k])@ == json_string_text(values@[k]@),
        decreases n - i,
    {
        literals.push(quoted(values[i].as_str()));
        i += 1;
    }
    assert(texts(literals@) =~= texts(values@).map_values(|v: Seq<char>| json_string_text(v)));
    proof {
        reveal_strlit("[");
        reveal_strlit("]");
        reveal_strlit(",");
        assert("["@ =~= seq!['[']);
        assert("]"@ =~= seq![']']);
        assert(","@ =~= seq![',']);
    }
    let mut json = "[".to_owned();
    json.append(join(&literals, ",").as_str());
    json.append("]");
    json
}

impl AnonymizedHttpHeaders {
    /// No name occurs twice.
    pub open spec fn wf(&self) -> bool {
        forall|a: int, b: int| 0 <= a < b < self@.len() ==> self@[a].0 != self@[b].0
    }

    /// The position of the entry of `name`, if there is one.
    pub fn position(&self, name: &str) -> (at: Option<usize>)
        ensures
            at matches Some(k) ==> k < self@.len() && self@[k as int].0 == name@,
            at is None ==> forall|k: int| 0 <= k < self@.len() ==> (#[trigger] self@[k]).0 != name@,
    {
        let n = self.0.len();
        let wanted = name.to_owned();
        let mut i: usize = 0;
        while i < n
            invariant
                0 <= i <= n,
                n == self.0@.len(),
                wanted@ == name@,
                forall|k: int| 0 <= k < i ==> (#[trigger] self@[k]).0 != name@,
            decreases n - i,
        {
            if self.0[i].name == wanted {
                return Some(i);
            }
            i += 1;
        }
        None
    }

    /// Groups the headers of a response by name, in the order in which the
    /// names first occur, and blanks the value of every cookie.
    pub fn from_wire(wire: &Vec<WireHeader>) -> (headers: AnonymizedHttpHeaders)
        ensures
            headers@ == grouped(wire_view(wire@)),
            headers.wf(),
    {
        let n = wire.len();
        let ghost all = wire_view(wire@);
        let mut headers = AnonymizedHttpHeaders(Vec::new());
        let mut i: usize = 0;
        assert(headers@ =~= grouped(all.subrange(0, 0)));
        while i < n
            invariant
                0 <= i <= n,
                n == wire@.len(),
                all == wire_view(wire@),
                headers@ == grouped(all.subrange(0, i as int)),
            decreases n - i,
        {
            let header = &wire[i];
            let ghost done = all.subrange(0, i as int);
            proof {
                assert(all[i as int] == header@);
                assert(done.push(header@) =~= all.subrange(0, i + 1));
                lemma_grouped_push(done, header@);
            }
            let value = anonymize_value(header.name.as_str(), header.value.as_slice());
            match headers.position(header.name.as_str()) {
                Some(k) => {
                    let ghost before = headers@;
                    assert(names_of(done)[k as int] == before[k as int].0);
                    let ghost old_values = headers.0@[k as int].values@;
                    assert(texts(old_values) == before[k as int].1);
                    headers.0[k].values.push(value);
                    proof {
                        lemma_texts_push(old_values, value);
                        assert(headers@ =~= before.update(
                            k as int,
                            (header@.0, values_of(done, header@.0).push(value@)),
                        ));
                    }
                },
                None => {
                    let ghost before = headers@;
                    assert(!names_of(done).contains(header@.0)) by {
                        if names_of(done).contains(header@.0) {
                            let k = choose|k: int|
                                0 <= k < names_of(done).len() && names_of(done)[k] == header@.0;
                            assert(before[k].0 == header@.0);
                        }
                    }
                    let mut values: Vec<String> = Vec::new();
                    values.push(value);
                    let entry = HeaderEntry { name: header.name.clone(), values };
                    assert(entry@ == (header@.0, seq![value@])) by {
                        assert(texts(entry.values@) =~= seq![value@]);
                    }
                    headers.0.push(entry);
                    assert(headers@ =~= before.push((header@.0, seq![value@])));
                },
            }
            i += 1;
        }
        proof {
            assert(all.subrange(0, n as int) =~= all);
            lemma_names_distinct(all);
        }
        headers
    }

    /// The header set as a JSON object from each name to the array of its
    /// values, in the order of the entries and without white space.
    pub fn to_json(&self) -> (json: String)
        ensures
            json@ == json_object(self@),
    {
        let n = self.0.len();
        let mut members: Vec<String> = Vec::new();
        let mut i: usize = 0;
        proof {
            reveal_strlit(":");
            reveal_strlit("{");
            reveal_strlit("}");
            reveal_strlit(",");
            assert(":"@ =~= seq![':']);
            assert("{"@ =~= seq!['{']);
            assert("}"@ =~= seq!['}']);
            assert(","@ =~= seq![',']);
        }
        while i < n
            invariant
                0 <= i <= n,
                n == self.0@.len(),
                members@.len() == i,
                ":"@ == seq![':'],
                forall|k: int| 0 <= k < i ==> (#[trigger] members@[k])@ == json_member(self@[k]),
            decreases n - i,
        {
            let entry = &self.0[i];
            let mut member = quoted(entry.name.as_str());
            member.append(":");
            member.append(json_list_text(&entry.values).as_str());
            members.push(member);
            i += 1;
        }
        assert(texts(members@) =~= self@.map_values(
            |e: (Seq<char>, Seq<Seq<char>>)| json_member(e),
        ));
        let mut json = "{".to_owned();
        json.append(join(&members, ",").as_str());
        json.append("}");
        json
    }

    /// The header set as it is printed: the Base64 text of its JSON, or
    /// three dots where that text would not fit the buffer.
    pub fn to_text(&self) -> (text: String)
        ensures
            text@ == blob_text(json_object(self@)),
            base64_len(encode_utf8(json_object(self@)).len()) <= MAX_HEADER_BUFFER_SIZE
                ==> text@.len() == base64_len(encode_utf8(json_object(self@)).len()),
            base64_len(encode_utf8(json_object(self@)).len()) > MAX_HEADER_BUFFER_SIZE
                ==> text@.len() == 3,
            text@.len() <= MAX_HEADER_BUFFER_SIZE,
    {
        let json = self.to_json();
        let bytes = json.as_str().as_bytes();
        if bytes.len() > MAX_ENCODABLE_LEN {
            proof {
                reveal_strlit("...");
                assert("..."@ =~= seq!['.', '.', '.']);
            }
            "...".to_owned()
        } else {
            base64_encode(bytes)
        }
    }
}

} // verus!
