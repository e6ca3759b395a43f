//! Fully qualified domain names: their grammar, parsing and rendering.

use crate::bindings::{lossy_text, utf8_lossy};
use crate::text::{copy_texts, join, joined, texts};
use vstd::prelude::*;

verus! {

/// The characters a label is made of: ASCII letters, digits and the hyphen.
pub open spec fn is_label_char(c: char) -> bool {
    ('a' <= c && c <= 'z') || ('A' <= c && c <= 'Z') || ('0' <= c && c <= '9') || c == '-'
}

/// A label holds between 1 and 63 label characters.
pub open spec fn is_label(label: Seq<char>) -> bool {
    &&& 1 <= label.len() <= 63
    &&& forall|i: int| 0 <= i < label.len() ==> is_label_char(#[trigger] label[i])
}

/// A strict label is a label that neither starts nor ends with a hyphen and
/// holds no two hyphens in a row.
pub open spec fn is_strict_label(label: Seq<char>) -> bool {
    &&& is_label(label)
    &&& label[0] != '-'
    &&& label[label.len() - 1] != '-'
    &&& forall|i: int| 0 <= i < label.len() - 1 ==> !(#[trigger] label[i] == '-' && label[i + 1] == '-')
}

/// The labels joined by dots.
pub open spec fn dotted(labels: Seq<Seq<char>>) -> Seq<char> {
    joined(labels, seq!['.'])
}

/// The index of the last dot of `text`, or -1 where it holds none.
pub open spec fn last_dot(text: Seq<char>) -> int
    decreases text.len(),
{
    if text.len() == 0 {
        -1
    } else if text.last() == '.' {
        text.len() - 1
    } else {
        last_dot(text.drop_last())
    }
}

/// The pieces of `text` between its dots, in order. A text without a dot is
/// its own single piece.
pub open spec fn split_dots(text: Seq<char>) -> Seq<Seq<char>>
    decreases text.len(),
{
    let at = last_dot(text);
    if 0 <= at < text.len() {
        split_dots(text.subrange(0, at)).push(text.subrange(at + 1, text.len() as int))
    } else {
        seq![text]
    }
}

/// The longest text that is accepted as a name.
pub const MAX_NAME_LEN: usize = 253;

/// The longest label.
pub const MAX_LABEL_LEN: usize = 63;

const DOT: u8 = 46;

const HYPHEN: u8 = 45;

const DIGIT_0: u8 = 48;

const DIGIT_9: u8 = 57;

const UPPER_A: u8 = 65;

const UPPER_Z: u8 = 90;

const LOWER_A: u8 = 97;

const LOWER_Z: u8 = 122;

/// The labels of a name: at least two, each a label (a strict one under
/// `strict`), and no more than 253 characters once joined by dots.
pub open spec fn are_fqdn_labels(labels: Seq<Seq<char>>, strict: bool) -> bool {
    &&& labels.len() >= 2
    &&& forall|i: int|
        0 <= i < labels.len() ==> if strict {
            is_strict_label(#[trigger] labels[i])
        } else {
            is_label(#[trigger] labels[i])
        }
    &&& dotted(labels).len() <= MAX_NAME_LEN
}

/// The texts that parse as a name.
pub open spec fn is_fqdn_text(text: Seq<char>, strict: bool) -> bool {
    are_fqdn_labels(split_dots(text), strict)
}

/// A text without a dot.
pub open spec fn is_dot_free(text: Seq<char>) -> bool {
    forall|i: int| 0 <= i < text.len() ==> #[trigger] text[i] != '.'
}

/// `last_dot` points at a dot after which no dot follows.
pub proof fn lemma_last_dot(text: Seq<char>)
    ensures
        -1 <= last_dot(text) < text.len(),
        last_dot(text) >= 0 ==> text[last_dot(text)] == '.',
        forall|j: int| last_dot(text) < j < text.len() ==> #[trigger] text[j] != '.',
    decreases text.len(),
{
    if text.len() > 0 && text.last() != '.' {
        lemma_last_dot(text.drop_last());
        assert forall|j: int| last_dot(text) < j < text.len() implies #[trigger] text[j]
            != '.' by {
            if j < text.len() - 1 {
                assert(text.drop_last()[j] == text[j]);
            }
        }
    }
}

/// A dot after which no dot follows is the last dot.
pub proof fn lemma_last_dot_at(text: Seq<char>, at: int)
    requires
        0 <= at < text.len(),
        text[at] == '.',
        forall|j: int| at < j < text.len() ==> #[trigger] text[j] != '.',
    ensures
        last_dot(text) == at,
    decreases text.len(),
{
    if text.len() - 1 > at {
        lemma_last_dot_at(text.drop_last(), at);
    }
}

/// A text without a dot is its own single piece.
pub proof fn lemma_split_dot_free(text: Seq<char>)
    requires
        is_dot_free(text),
    ensures
        split_dots(text) == seq![text],
{
    lemma_last_dot(text);
}

/// Splitting `head . piece`, where `piece` holds no dot, gives the pieces of
/// `head` and then `piece`.
pub proof fn lemma_split_push(head: Seq<char>, piece: Seq<char>)
    requires
        is_dot_free(piece),
    ensures
        split_dots(head + seq!['.'] + piece) == split_dots(head).push(piece),
{
    let text = head + seq!['.'] + piece;
    let at = head.len() as int;
    assert forall|j: int| at < j < text.len() implies #[trigger] text[j] != '.' by {
        assert(text[j] == piece[j - at - 1]);
    }
    lemma_last_dot_at(text, at);
    assert(text.subrange(0, at) =~= head);
    assert(text.subrange(at + 1, text.len() as int) =~= piece);
}

/// Joining the pieces of a text by dots gives the text back.
pub proof fn lemma_dotted_split(text: Seq<char>)
    ensures
        dotted(split_dots(text)) == text,
        split_dots(text).len() >= 1,
        forall|i: int| 0 <= i < split_dots(text).len() ==> is_dot_free(#[trigger] split_dots(text)[i]),
    decreases text.len(),
{
    lemma_last_dot(text);
    let at = last_dot(text);
    if 0 <= at {
        let head = text.subrange(0, at);
        let piece = text.subrange(at + 1, text.len() as int);
        lemma_dotted_split(head);
        let pieces = split_dots(head).push(piece);
        assert(pieces.drop_last() =~= split_dots(head));
        assert(head + seq!['.'] + piece =~= text);
        assert forall|i: int| 0 <= i < pieces.len() implies is_dot_free(#[trigger] pieces[i]) by {
            if i < pieces.len() - 1 {
                assert(pieces[i] == split_dots(head)[i]);
            }
        }
    } else {
        assert(seq![text][0] == text);
    }
}

/// Splitting what was joined from dot-free labels gives the labels back.
pub proof fn lemma_split_dotted(labels: Seq<Seq<char>>)
    requires
        labels.len() >= 1,
        forall|i: int| 0 <= i < labels.len() ==> is_dot_free(#[trigger] labels[i]),
    ensures
        split_dots(dotted(labels)) == labels,
    decreases labels.len(),
{
    if labels.len() == 1 {
        lemma_split_dot_free(labels[0]);
        assert(seq![labels[0]] =~= labels);
    } else {
        lemma_split_dotted(labels.drop_last());
        lemma_split_push(dotted(labels.drop_last()), labels.last());
        assert(labels.drop_last().push(labels.last()) =~= labels);
    }
}

/// A text whose pieces are all labels is made of ASCII characters.
pub proof fn lemma_label_pieces_are_ascii(text: Seq<char>)
    requires
        forall|i: int| 0 <= i < split_dots(text).len() ==> is_label(#[trigger] split_dots(text)[i]),
    ensures
        vstd::utf8::is_ascii_chars(text),
    decreases text.len(),
{
    lemma_last_dot(text);
    let at = last_dot(text);
    if 0 <= at {
        let head = text.subrange(0, at);
        let piece = text.subrange(at + 1, text.len() as int);
        let pieces = split_dots(text);
        assert(pieces == split_dots(head).push(piece));
        assert forall|i: int| 0 <= i < split_dots(head).len() implies is_label(
            #[trigger] split_dots(head)[i],
        ) by {
            assert(split_dots(head)[i] == pieces[i]);
        }
        lemma_label_pieces_are_ascii(head);
        assert(is_label(pieces[pieces.len() - 1]));
        assert forall|j: int| 0 <= j < text.len() implies '\0' <= #[trigger] text[j] <= '\u{7f}' by {
            if j < at {
                assert(text[j] == head[j]);
            } else if j > at {
                assert(text[j] == piece[j - at - 1]);
            }
        }
    } else {
        assert(is_label(split_dots(text)[0]));
    }
}

/// The labels of a name are dot-free, so the name can be read back from its
/// text: rendering a name and parsing the text gives the same labels, and
/// the text is accepted under the rules the labels meet.
pub proof fn lemma_render_then_parse(labels: Seq<Seq<char>>, strict: bool)
    requires
        are_fqdn_labels(labels, strict),
    ensures
        is_fqdn_text(dotted(labels), strict),
        split_dots(dotted(labels)) == labels,
{
    assert forall|i: int| 0 <= i < labels.len() implies is_dot_free(#[trigger] labels[i]) by {
        assert(is_label(labels[i]));
    }
    lemma_split_dotted(labels);
}

/// The text of a name that was parsed is the text it was parsed from, and
/// what the strict rules accept the lenient rules accept too.
pub proof fn lemma_parse_then_render(text: Seq<char>, strict: bool)
    requires
        is_fqdn_text(text, strict),
    ensures
        dotted(split_dots(text)) == text,
        is_fqdn_text(text, false),
        1 <= text.len() <= MAX_NAME_LEN,
{
    lemma_dotted_split(text);
    let labels = split_dots(text);
    assert(is_label(labels[0]));
    assert(labels.drop_last().len() >= 1);
    lemma_joined_is_long(labels);
}

/// A joined text is at least as long as its last part.
proof fn lemma_joined_is_long(labels: Seq<Seq<char>>)
    requires
        labels.len() >= 1,
    ensures
        dotted(labels).len() >= labels.last().len(),
{
}

/// The labels that stand for the raw labels of a resolver's name: each
/// decoded as UTF-8, with the replacement character for what is not.
pub open spec fn decoded_labels(raw: Seq<Vec<u8>>) -> Seq<Seq<char>> {
    Seq::new(raw.len(), |i: int| lossy_text(raw[i]@))
}

/// A domain name as the list of its labels, leftmost first.
#[derive(Debug, Clone)]
pub struct Fqdn(pub Vec<String>);

/// The failure to read a text as a name.
#[derive(Debug, Clone, Copy, PartialEq, Eq, Structural)]
pub struct ParseFqdnError;

impl View for Fqdn {
    type V = Seq<Seq<char>>;

    open spec fn view(&self) -> Seq<Seq<char>> {
        texts(self.0@)
    }
}

/// Whether `label` is a label (a strict one under `strict`).
pub fn check_label(label: &str, strict: bool) -> (ok: bool)
    ensures
        ok == if strict {
            is_strict_label(label@)
        } else {
            is_label(label@)
        },
{
    broadcast use vstd::string::is_ascii_spec_bytes;

    if !label.is_ascii() {
        assert(!is_label(label@)) by {
            if is_label(label@) {
                assert forall|i: int| 0 <= i < label@.len() implies '\0' <= #[trigger] label@[i]
                    <= '\u{7f}' by {
                    assert(is_label_char(label@[i]));
                }
            }
        }
        return false;
    }
    let bytes = label.as_bytes();
    let n = bytes.len();
    if n == 0 || n > MAX_LABEL_LEN {
        return false;
    }
    let mut i: usize = 0;
    while i < n
        invariant
            0 <= i <= n,
            n == label@.len(),
            n == bytes@.len(),
            1 <= n <= MAX_LABEL_LEN,
            vstd::string::is_ascii(label),
            forall|j: int| 0 <= j < n ==> bytes@[j] == #[trigger] label@[j] as u8,
            forall|j: int| 0 <= j < i ==> is_label_char(#[trigger] label@[j]),
            strict && i > 0 ==> label@[0] != '-',
            strict ==> forall|j: int|
                0 <= j < i - 1 ==> !(#[trigger] label@[j] == '-' && label@[j + 1] == '-'),
        decreases n - i,
    {
        let b = bytes[i];
        assert(b == label@[i as int] as u8);
        assert('\0' <= label@[i as int] <= '\u{7f}');
        let allowed = (LOWER_A <= b && b <= LOWER_Z) || (UPPER_A <= b && b <= UPPER_Z) || (DIGIT_0
            <= b && b <= DIGIT_9) || b == HYPHEN;
        if !allowed {
            assert(!is_label_char(label@[i as int]));
            return false;
        }
        if strict && b == HYPHEN {
            if i == 0 {
                return false;
            }
            let before = bytes[i - 1];
            assert(before == label@[i - 1] as u8);
            assert('\0' <= label@[i - 1] <= '\u{7f}');
            if before == HYPHEN {
                assert(label@[i - 1] == '-' && label@[(i - 1) + 1] == '-');
                return false;
            }
        }
        i += 1;
    }
    if strict {
        let last = bytes[n - 1];
        assert(last == label@[n - 1] as u8);
        assert('\0' <= label@[n - 1] <= '\u{7f}');
        if last == HYPHEN {
            return false;
        }
    }
    true
}

/// The pieces of `text`, a text of ASCII characters, between its dots.
fn split_at_dots(text: &str) -> (pieces: Vec<String>)
    requires
        text.is_ascii(),
    ensures
        texts(pieces@) == split_dots(text@),
{
    broadcast use vstd::string::is_ascii_spec_bytes;

    let bytes = text.as_bytes();
    let n = bytes.len();
    let mut pieces: Vec<String> = Vec::new();
    let mut start: usize = 0;
    let mut i: usize = 0;
    while i < n
        invariant
            0 <= start <= i <= n,
            n == text@.len(),
            n == bytes@.len(),
            vstd::string::is_ascii(text),
            forall|j: int| 0 <= j < n ==> bytes@[j] == #[trigger] text@[j] as u8,
            forall|j: int| start <= j < i ==> #[trigger] text@[j] != '.',
            start == 0 ==> pieces@.len() == 0,
            start > 0 ==> text@[start - 1] == '.' && texts(pieces@) == split_dots(
                text@.subrange(0, start - 1),
            ),
        decreases n - i,
    {
        let b = bytes[i];
        assert(b == text@[i as int] as u8);
        assert('\0' <= text@[i as int] <= '\u{7f}');
        if b == DOT {
            let piece = text.substring_ascii(start, i);
            let owned = piece.to_owned();
            proof {
                lemma_piece(text@, start as int, i as int, pieces@, owned);
            }
            pieces.push(owned);
            start = i + 1;
        }
        i += 1;
    }
    let piece = text.substring_ascii(start, n);
    let owned = piece.to_owned();
    proof {
        lemma_piece(text@, start as int, n as int, pieces@, owned);
        assert(text@.subrange(0, n as int) =~= text@);
    }
    pieces.push(owned);
    pieces
}

/// The step of `split_at_dots`: the dot-free run from `start` to `end`
/// completes the pieces of the text before `end`.
proof fn lemma_piece(text: Seq<char>, start: int, end: int, pieces: Seq<String>, owned: String)
    requires
        0 <= start <= end <= text.len(),
        owned@ == text.subrange(start, end),
        forall|j: int| start <= j < end ==> #[trigger] text[j] != '.',
        start == 0 ==> pieces.len() == 0,
        start > 0 ==> text[start - 1] == '.' && texts(pieces) == split_dots(
            text.subrange(0, start - 1),
        ),
    ensures
        texts(pieces.push(owned)) == split_dots(text.subrange(0, end)),
{
    let piece = text.subrange(start, end);
    assert(texts(pieces.push(owned)) =~= texts(pieces).push(piece));
    if start == 0 {
        lemma_split_dot_free(piece);
        assert(texts(pieces) =~= Seq::<Seq<char>>::empty());
        assert(Seq::<Seq<char>>::empty().push(piece) =~= seq![piece]);
    } else {
        let head = text.subrange(0, start - 1);
        lemma_split_push(head, piece);
        assert(head + seq!['.'] + piece =~= text.subrange(0, end));
    }
}

impl Fqdn {
    /// A name is well formed when its labels are those of a lenient name.
    pub open spec fn wf(&self) -> bool {
        are_fqdn_labels(self@, false)
    }

    /// Reads `text` as a name, leniently: two or more labels of letters,
    /// digits and hyphens, separated by single dots.
    pub fn from_str(text: &str) -> (parsed: Result<Fqdn, ParseFqdnError>)
        ensures
            parsed is Ok <==> is_fqdn_text(text@, false),
            parsed matches Ok(name) ==> name@ == split_dots(text@) && dotted(name@) == text@
                && name.wf(),
    {
        Fqdn::parse(text, false)
    }

    /// Reads `text` as a name. Under `strict`, a label may neither start nor
    /// end with a hyphen, nor hold two hyphens in a row.
    pub fn parse(text: &str, strict: bool) -> (parsed: Result<Fqdn, ParseFqdnError>)
        ensures
            parsed is Ok <==> is_fqdn_text(text@, strict),
            parsed matches Ok(name) ==> name@ == split_dots(text@) && dotted(name@) == text@
                && name.wf(),
    {
        broadcast use vstd::string::is_ascii_spec_bytes;

        proof {
            lemma_dotted_split(text@);
        }
        if !text.is_ascii() {
            proof {
                if is_fqdn_text(text@, strict) {
                    lemma_label_pieces_are_ascii(text@);
                }
            }
            return Err(ParseFqdnError);
        }
        let n = text.as_bytes().len();
        if n == 0 || n > MAX_NAME_LEN {
            return Err(ParseFqdnError);
        }
        let pieces = split_at_dots(text);
        let count = pieces.len();
        if count < 2 {
            return Err(ParseFqdnError);
        }
        let mut i: usize = 0;
        while i < count
            invariant
                0 <= i <= count,
                2 <= count == pieces@.len(),
                texts(pieces@) == split_dots(text@),
                dotted(split_dots(text@)) == text@,
                text@.len() <= MAX_NAME_LEN,
                forall|k: int|
                    0 <= k < i ==> if strict {
                        is_strict_label(#[trigger] split_dots(text@)[k])
                    } else {
                        is_label(#[trigger] split_dots(text@)[k])
                    },
            decreases count - i,
        {
            assert(texts(pieces@)[i as int] == pieces@[i as int]@);
            if !check_label(pieces[i].as_str(), strict) {
                return Err(ParseFqdnError);
            }
            i += 1;
        }
        let name = Fqdn(pieces);
        Ok(name)
    }

    /// The registered domain: the last two labels joined by a dot.
    pub fn domain(&self) -> (domain: String)
        requires
            self@.len() >= 2,
        ensures
            domain@ == self@[self@.len() - 2] + seq!['.'] + self@[self@.len() - 1],
    {
        let n = self.0.len();
        let mut domain = self.0[n - 2].clone();
        domain.append(".");
        domain.append(self.0[n - 1].as_str());
        proof {
            reveal_strlit(".");
            assert("."@ =~= seq!['.']);
        }
        domain
    }

    /// The name whose labels are the given raw labels, decoded. The result
    /// need not be well formed: a resolver's name may hold one label or
    /// none, and bytes that no label of a parsed name holds.
    pub fn from_labels(raw: &Vec<Vec<u8>>) -> (name: Fqdn)
        ensures
            name@ == decoded_labels(raw@),
    {
        let n = raw.len();
        let mut labels: Vec<String> = Vec::new();
        let mut i: usize = 0;
        while i < n
            invariant
                0 <= i <= n,
                n == raw@.len(),
                labels@.len() == i,
                forall|k: int| 0 <= k < i ==> (#[trigger] labels@[k])@ == lossy_text(raw@[k]@),
            decreases n - i,
        {
            labels.push(utf8_lossy(raw[i].as_slice()));
            i += 1;
        }
        assert(texts(labels@) =~= decoded_labels(raw@));
        Fqdn(labels)
    }

    /// A copy of the name.
    pub fn copy(&self) -> (name: Fqdn)
        ensures
            name@ == self@,
    {
        Fqdn(copy_texts(&self.0))
    }

    /// The name as text: its labels joined by dots.
    pub fn to_text(&self) -> (text: String)
        ensures
            text@ == dotted(self@),
    {
        proof {
            reveal_strlit(".");
            assert("."@ =~= seq!['.']);
        }
        join(&self.0, ".")
    }
}

impl ParseFqdnError {
    /// The message of the error.
    pub fn to_text(&self) -> (text: String)
        ensures
            text@ == "expected a fully qualified domain name"@,
    {
        "expected a fully qualified domain name".to_owned()
    }
}

} // verus!
