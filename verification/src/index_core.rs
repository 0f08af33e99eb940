//! What is stored for a message: its id (from the MIME parser, else from
//! the raw header lines), its sender and recipient written as
//! `Name <address>`, and the rest of its fields.

use vstd::prelude::*;
use vstd::utf8::{valid_utf8, decode_utf8};
use crate::text::{chars_of, string_of, trim, trim_chars, trim_str, trim_start_by, trim_end_by,
    trim_start_any, trim_end_any, in_set, find_char, first_index_of, sub_chars, starts_with,
    starts_with_chars, concat_str};
use crate::address::split_char;
use crate::index_maildir::{FlagSet, flag_tags, flags_to_tags};
use crate::tag_set::views;
use crate::index_text::{MimeNode, TEXT_BUDGET, node_fits, node_text, collected, collect_text_parts,
    try_collect_text_parts, check_fits};

verus! {

// ── Message ids ─────────────────────────────────────────────────────────────

/// The Message-ID that `mail_parser` finds in a raw message, when the
/// message parses and has one.
pub uninterp spec fn parsed_message_id(raw: Seq<u8>) -> Option<Seq<char>>;

/// Parses the raw message with `mail_parser::MessageParser` and takes its
/// `message_id()`. The contract claims only that the result is
/// `parsed_message_id` of the bytes.
#[verifier::external_body]
fn mime_message_id(raw: &[u8]) -> (r: Option<String>)
    ensures
        match r {
            Some(s) => parsed_message_id(raw@) == Some(s@),
            None => parsed_message_id(raw@) is None,
        },
{
    match mail_parser::MessageParser::new().parse(raw) {
        Some(message) => message.message_id().map(String::from),
        None => None,
    }
}

/// `std::str::from_utf8`: the text the bytes encode when they are valid
/// UTF-8 (as vstd defines it), `None` otherwise.
#[verifier::external_body]
fn utf8_text(bytes: &[u8]) -> (r: Option<String>)
    ensures
        match r {
            Some(s) => valid_utf8(bytes@) && s@ == decode_utf8(bytes@),
            None => !valid_utf8(bytes@),
        },
{
    match std::str::from_utf8(bytes) {
        Ok(s) => Some(s.to_string()),
        Err(_) => None,
    }
}

/// An id with its angle brackets removed: leading `<` and trailing `>`.
pub open spec fn strip_angles(id: Seq<char>) -> Seq<char> {
    trim_end_by(trim_start_by(id, in_set(seq!['<'])), in_set(seq!['>']))
}

/// A line without its final carriage return.
pub open spec fn strip_cr(l: Seq<char>) -> Seq<char> {
    if l.len() > 0 && l.last() == '\r' {
        l.drop_last()
    } else {
        l
    }
}

/// `str::lines`: pieces between newlines, a carriage return before the
/// newline dropped, no empty piece after a final newline.
pub open spec fn text_lines(s: Seq<char>) -> Seq<Seq<char>> {
    let p = split_char(s, '\n');
    let body = p.drop_last().map_values(|l: Seq<char>| strip_cr(l));
    if p.last().len() == 0 {
        body
    } else {
        body.push(p.last())
    }
}

/// `char::to_ascii_lowercase` on every character.
pub open spec fn ascii_lower(s: Seq<char>) -> Seq<char> {
    s.map_values(|c: char| if 'A' <= c <= 'Z' { ((c as u32) + 32) as char } else { c })
}

/// The id after the first `:` of a header line, trimmed and without angle
/// brackets.
pub open spec fn id_after_colon(line: Seq<char>) -> Seq<char> {
    match first_index_of(line, ':') {
        Some(i) => strip_angles(trim(line.subrange(i + 1, line.len() as int))),
        None => Seq::empty(),
    }
}

/// The first non-empty id of a `Message-ID` line before the first empty
/// line.
pub open spec fn header_message_id(lines: Seq<Seq<char>>) -> Seq<char>
    decreases lines.len(),
{
    if lines.len() == 0 {
        Seq::empty()
    } else {
        let line = lines[0];
        let found = if starts_with(ascii_lower(line), "message-id"@) {
            id_after_colon(line)
        } else {
            Seq::empty()
        };
        if found.len() > 0 {
            found
        } else if line.len() == 0 {
            Seq::empty()
        } else {
            header_message_id(lines.drop_first())
        }
    }
}

/// The first 4096 bytes of a message as text, when they are valid UTF-8.
pub open spec fn head_text(raw: Seq<u8>) -> Option<Seq<char>> {
    let n = if raw.len() < 4096 {
        raw.len() as int
    } else {
        4096
    };
    if valid_utf8(raw.subrange(0, n)) {
        Some(decode_utf8(raw.subrange(0, n)))
    } else {
        None
    }
}

/// The id a message gets: the parser's, cleaned, when not empty; otherwise
/// one read from the raw header lines; otherwise empty.
pub open spec fn message_id_of(parsed: Option<Seq<char>>, raw: Seq<u8>) -> Seq<char> {
    let from_parser = match parsed {
        Some(m) => strip_angles(trim(m)),
        None => Seq::empty(),
    };
    if from_parser.len() > 0 {
        from_parser
    } else {
        match head_text(raw) {
            Some(h) => header_message_id(text_lines(h)),
            None => Seq::empty(),
        }
    }
}

fn strip_angles_chars(v: &Vec<char>) -> (r: Vec<char>)
    ensures
        r@ == strip_angles(v@),
{
    let mut lt: Vec<char> = Vec::new();
    lt.push('<');
    let mut gt: Vec<char> = Vec::new();
    gt.push('>');
    assert(lt@ =~= seq!['<']);
    assert(gt@ =~= seq!['>']);
    let a = trim_start_any(v, &lt);
    trim_end_any(&a, &gt)
}

fn ascii_lower_chars(v: &Vec<char>) -> (r: Vec<char>)
    ensures
        r@ == ascii_lower(v@),
{
    let mut r: Vec<char> = Vec::new();
    let mut i: usize = 0;
    while i < v.len()
        invariant
            i <= v@.len(),
            r@ == ascii_lower(v@.take(i as int)),
        decreases v.len() - i,
    {
        let c = v[i];
        let d = if 'A' <= c && c <= 'Z' {
            ((c as u32) + 32) as u8 as char
        } else {
            c
        };
        proof {
            if 'A' <= c && c <= 'Z' {
                assert(d == ((c as u32) + 32) as char);
            }
        }
        r.push(d);
        assert(r@ =~= ascii_lower(v@.take(i + 1)));
        i += 1;
    }
    assert(v@.take(v@.len() as int) =~= v@);
    r
}

fn id_after_colon_chars(line: &Vec<char>) -> (r: Vec<char>)
    ensures
        r@ == id_after_colon(line@),
{
    match find_char(line, ':') {
        Some(i) => {
            let rest = sub_chars(line, i + 1, line.len());
            let t = trim_chars(&rest);
            strip_angles_chars(&t)
        },
        None => Vec::new(),
    }
}

/// The lines of a text, as `str::lines` gives them.
pub fn lines_of(text: &Vec<char>) -> (r: Vec<Vec<char>>)
    ensures
        r@.len() == text_lines(text@).len(),
        forall|i: int| 0 <= i < r@.len() ==> (#[trigger] r@[i])@ == text_lines(text@)[i],
{
    let mut lines: Vec<Vec<char>> = Vec::new();
    let mut cur: Vec<char> = Vec::new();
    let mut i: usize = 0;
    let ghost mut pieces: Seq<Seq<char>> = Seq::empty();
    assert(text@.take(0) =~= Seq::<char>::empty());
    while i < text.len()
        invariant
            i <= text@.len(),
            pieces.push(cur@) == split_char(text@.take(i as int), '\n'),
            lines@.len() == pieces.len(),
            forall|k: int| 0 <= k < lines@.len() ==> (#[trigger] lines@[k])@ == strip_cr(pieces[k]),
        decreases text.len() - i,
    {
        let c = text[i];
        proof {
            assert(text@.take(i + 1).drop_last() =~= text@.take(i as int));
            assert(text@.take(i + 1).last() == c);
            crate::address::lemma_split_char_len(text@.take(i as int), '\n');
        }
        if c == '\n' {
            let ghost done = cur@;
            let l = if cur.len() > 0 && cur[cur.len() - 1] == '\r' {
                sub_chars(&cur, 0, cur.len() - 1)
            } else {
                sub_chars(&cur, 0, cur.len())
            };
            assert(l@ =~= strip_cr(done));
            lines.push(l);
            cur = Vec::new();
            proof {
                pieces = pieces.push(done);
            }
            assert(pieces.push(cur@) =~= split_char(text@.take(i + 1), '\n'));
        } else {
            cur.push(c);
            assert(pieces.push(cur@) =~= split_char(text@.take(i + 1), '\n'));
        }
        i += 1;
    }
    assert(text@.take(text@.len() as int) =~= text@);
    let ghost p = split_char(text@, '\n');
    assert(p.drop_last() =~= pieces);
    assert(p.last() == cur@);
    if cur.len() > 0 {
        lines.push(cur);
    }
    lines
}

/// The id of the first `Message-ID` header line with a non-empty id,
/// looking no further than the first empty line.
pub fn message_id_in_lines(lines: &Vec<Vec<char>>) -> (r: Vec<char>)
    ensures
        r@ == header_message_id(lines@.map_values(|l: Vec<char>| l@)),
{
    let ghost ls = lines@.map_values(|l: Vec<char>| l@);
    let mut prefix: Vec<char> = Vec::new();
    let s = "message-id";
    proof {
        reveal_strlit("message-id");
    }
    let pat = chars_of(s);
    let mut i: usize = 0;
    assert(ls.skip(0) =~= ls);
    while i < lines.len()
        invariant
            ls == lines@.map_values(|l: Vec<char>| l@),
            pat@ == "message-id"@,
            i <= lines@.len(),
            header_message_id(ls) == header_message_id(ls.skip(i as int)),
        decreases lines.len() - i,
    {
        let line = &lines[i];
        proof {
            assert(ls.skip(i as int)[0] == line@);
            assert(ls.skip(i as int).drop_first() =~= ls.skip(i + 1));
        }
        let lower = ascii_lower_chars(line);
        if starts_with_chars(&lower, &pat) {
            let id = id_after_colon_chars(line);
            if id.len() > 0 {
                return id;
            }
        }
        if line.len() == 0 {
            return Vec::new();
        }
        i += 1;
    }
    assert(ls.skip(lines@.len() as int).len() == 0);
    prefix
}

/// The id of a raw message, given what the MIME parser found.
pub fn message_id_from(parsed: Option<String>, raw: &[u8]) -> (r: String)
    ensures
        r@ == message_id_of(
            match parsed {
                Some(m) => Some(m@),
                None => None,
            },
            raw@,
        ),
{
    let from_parser: Vec<char> = match &parsed {
        Some(m) => {
            let t = trim_chars(&chars_of(m.as_str()));
            strip_angles_chars(&t)
        },
        None => Vec::new(),
    };
    if from_parser.len() > 0 {
        return string_of(&from_parser);
    }
    let n: usize = if raw.len() < 4096 {
        raw.len()
    } else {
        4096
    };
    let head = &raw[0..n];
    match utf8_text(head) {
        Some(text) => {
            let tv = chars_of(text.as_str());
            let lines = lines_of(&tv);
            proof {
                assert(lines@.map_values(|l: Vec<char>| l@) =~= text_lines(text@));
            }
            let id = message_id_in_lines(&lines);
            string_of(&id)
        },
        None => String::new(),
    }
}

/// The id of a raw message: the MIME parser's Message-ID, else one read
/// from the first lines, else empty.
pub fn extract_message_id(raw: &[u8]) -> (r: String)
    ensures
        r@ == message_id_of(
            match parsed_message_id(raw@) {
                Some(m) => Some(m),
                None => None,
            },
            raw@,
        ),
{
    let parsed = mime_message_id(raw);
    message_id_from(parsed, raw)
}

// ── Addresses ───────────────────────────────────────────────────────────────

/// One address of a header, as the MIME parser gives it.
pub struct MailAddr {
    pub name: Option<String>,
    pub address: Option<String>,
}

/// A From:/To: header: a list of addresses, or groups of them.
pub enum HeaderAddress {
    List(Vec<MailAddr>),
    Group(Vec<Vec<MailAddr>>),
}

/// An address written as `Name <address>`, or just the address when either
/// part is empty.
pub open spec fn addr_text(name: Option<String>, address: Option<String>) -> Seq<char> {
    let e = trim(
        match address {
            Some(a) => a@,
            None => Seq::empty(),
        },
    );
    let n = trim(
        match name {
            Some(a) => a@,
            None => Seq::empty(),
        },
    );
    if n.len() == 0 || e.len() == 0 {
        e
    } else {
        n + " <"@ + e + ">"@
    }
}

/// The first address of a header, written out; empty when there is none.
pub open spec fn header_text(h: HeaderAddress) -> Seq<char> {
    match h {
        HeaderAddress::List(list) => if list@.len() > 0 {
            addr_text(list@[0].name, list@[0].address)
        } else {
            Seq::empty()
        },
        HeaderAddress::Group(groups) => if groups@.len() > 0 && groups@[0]@.len() > 0 {
            addr_text(groups@[0]@[0].name, groups@[0]@[0].address)
        } else {
            Seq::empty()
        },
    }
}

fn format_addr(a: &MailAddr) -> (r: String)
    ensures
        r@ == addr_text(a.name, a.address),
{
    let e = match &a.address {
        Some(s) => trim_str(s.as_str()),
        None => String::new(),
    };
    let n = match &a.name {
        Some(s) => trim_str(s.as_str()),
        None => String::new(),
    };
    proof {
        assert(trim(Seq::<char>::empty()) =~= Seq::<char>::empty()) by {
            crate::text::lemma_trim_empty();
        }
    }
    if chars_of(n.as_str()).len() == 0 || chars_of(e.as_str()).len() == 0 {
        e
    } else {
        let s = concat_str(n.as_str(), " <");
        let s = concat_str(s.as_str(), e.as_str());
        concat_str(s.as_str(), ">")
    }
}

/// The first address of a header as `Name <address>`.
pub fn extract_address(addr: &HeaderAddress) -> (r: String)
    ensures
        r@ == header_text(*addr),
{
    match addr {
        HeaderAddress::List(list) => {
            if list.len() > 0 {
                format_addr(&list[0])
            } else {
                String::new()
            }
        },
        HeaderAddress::Group(groups) => {
            if groups.len() > 0 && groups[0].len() > 0 {
                format_addr(&groups[0][0])
            } else {
                String::new()
            }
        },
    }
}

// ── The stored document ─────────────────────────────────────────────────────

/// What the MIME parser gives for a message.
pub struct ParsedMail {
    pub from: Option<HeaderAddress>,
    pub to: Option<HeaderAddress>,
    pub subject: Option<String>,
    /// How many MIME parts the message has.
    pub part_count: usize,
    /// The text of its first text body, as the parser renders it.
    pub first_text: Option<String>,
    /// Its text-carrying parts.
    pub parts: MimeNode,
    /// The `Date:` header as seconds since the epoch.
    pub date: Option<i64>,
}

/// The fields stored for a message.
pub struct MessageDoc {
    pub from: String,
    pub to: String,
    pub subject: String,
    pub body: String,
    pub date: i64,
    pub path: String,
    pub message_id: String,
    pub tags: Vec<String>,
}

/// A header written out, empty when absent.
pub open spec fn header_or_empty(h: Option<HeaderAddress>) -> Seq<char> {
    match h {
        Some(a) => header_text(a),
        None => Seq::empty(),
    }
}

/// The stored body of a message: with no MIME parts, the first text body;
/// otherwise the text collected from its parts.
pub open spec fn body_text(m: ParsedMail) -> Seq<char> {
    if m.part_count == 0 {
        match m.first_text {
            Some(t) => t@,
            None => Seq::empty(),
        }
    } else {
        collected(m.parts)
    }
}

/// A body whose text can be collected: no part is cut inside a character.
pub open spec fn body_collectable(m: ParsedMail) -> bool {
    m.part_count == 0 || (node_fits(m.parts) && node_text(m.parts, TEXT_BUDGET as nat) is Some)
}

fn header_string(h: &Option<HeaderAddress>) -> (r: String)
    ensures
        r@ == header_or_empty(*h),
{
    match h {
        Some(a) => extract_address(a),
        None => String::new(),
    }
}

/// The fields of the document stored for `mail` found at `path` with the
/// given flags, under the given id.
pub open spec fn doc_fields(d: MessageDoc, path: Seq<char>, mail: ParsedMail, flags: Set<char>, message_id: Seq<char>) -> bool {
    &&& d.from@ == header_or_empty(mail.from)
    &&& d.to@ == header_or_empty(mail.to)
    &&& d.subject@ == match mail.subject {
        Some(s) => s@,
        None => Seq::empty(),
    }
    &&& d.body@ == body_text(mail)
    &&& d.date == match mail.date {
        Some(t) => t,
        None => 0,
    }
    &&& d.path@ == path
    &&& d.message_id@ == message_id
    &&& views(d.tags@) == flag_tags(flags)
}

/// The document stored for a message found at `path` with the given flags,
/// under the given id.
pub fn message_doc(path: &str, mail: &ParsedMail, flags: &FlagSet, message_id: &str) -> (r: MessageDoc)
    requires
        body_collectable(*mail),
    ensures
        doc_fields(r, path@, *mail, flags@, message_id@),
{
    let body = if mail.part_count == 0 {
        match &mail.first_text {
            Some(t) => t.clone(),
            None => String::new(),
        }
    } else {
        collect_text_parts(&mail.parts)
    };
    MessageDoc {
        from: header_string(&mail.from),
        to: header_string(&mail.to),
        subject: match &mail.subject {
            Some(s) => s.clone(),
            None => String::new(),
        },
        body,
        date: match mail.date {
            Some(d) => d,
            None => 0,
        },
        path: String::from_str(path),
        message_id: String::from_str(message_id),
        tags: flags_to_tags(flags),
    }
}

// ── Parsing a raw message ───────────────────────────────────────────────────

/// A parsed message of `mail_parser`, carried through unread.
#[verifier::external_type_specification]
#[verifier::external_body]
pub struct ExMessage<'x>(mail_parser::Message<'x>);

/// A From:/To: header value of `mail_parser`, carried through unread.
#[verifier::external_type_specification]
#[verifier::external_body]
pub struct ExAddress<'x>(mail_parser::Address<'x>);

/// What `mail_parser` makes of a raw message: `None` when it finds no
/// header, else the message's fields as plain values.
pub uninterp spec fn parsed_mail(raw: Seq<u8>) -> Option<ParsedMail>;

/// Parses the raw message with `mail_parser::MessageParser::parse` and reads
/// its `from()`, `to()`, `subject()`, `parts.len()`, `body_text(0)`, text
/// bodies, attachments and `date()` (as `to_timestamp()`). The contract
/// claims only that the result is `parsed_mail` of the bytes.
#[verifier::external_body]
fn parse_mail(raw: &[u8]) -> (r: Option<ParsedMail>)
    ensures
        r == parsed_mail(raw@),
{
    let m = mail_parser::MessageParser::new().parse(raw)?;
    Some(ParsedMail {
        from: m.from().map(header_of),
        to: m.to().map(header_of),
        subject: m.subject().map(String::from),
        part_count: m.parts.len(),
        first_text: m.body_text(0).map(|t| t.to_string()),
        parts: node_of(&m),
        date: m.date().map(|d| d.to_timestamp()),
    })
}

/// A `mail_parser::Address` as plain values: a list, or the addresses of
/// each group, each address's name and address copied.
#[verifier::external_body]
fn header_of(a: &mail_parser::Address) -> HeaderAddress {
    let one = |x: &mail_parser::Addr| MailAddr {
        name: x.name.as_ref().map(|n| n.to_string()),
        address: x.address.as_ref().map(|n| n.to_string()),
    };
    match a {
        mail_parser::Address::List(l) => HeaderAddress::List(l.iter().map(one).collect()),
        mail_parser::Address::Group(g) => HeaderAddress::Group(g.iter().map(|g| g.addresses.iter().map(one).collect()).collect()),
    }
}

/// The text bodies (`text_bodies()`) and attachments (`attachments()`) of a
/// `mail_parser::Message`, one entry each, with the text of a
/// `PartType::Text` part and the parts of a `PartType::Message` part.
#[verifier::external_body]
fn node_of(m: &mail_parser::Message) -> MimeNode {
    let mut texts = Vec::new();
    for p in m.text_bodies() {
        texts.push(match &p.body { mail_parser::PartType::Text(t) => Some(t.to_string()), _ => None });
    }
    let mut attached = Vec::new();
    for p in m.attachments() {
        attached.push(match &p.body { mail_parser::PartType::Message(inner) => Some(node_of(inner)), _ => None });
    }
    MimeNode { texts, attached }
}

/// Why a raw message gives no document.
pub enum MailError {
    /// The MIME parser finds no message in the bytes.
    Unparsable,
    /// The text budget would cut a text part inside a character.
    TextCut,
}

/// The document stored for the raw message found at `path` with the given
/// flags, under the given id: `Unparsable` when the MIME parser finds no
/// message, `TextCut` when the text budget would cut a part inside a
/// character.
pub fn message_doc_of_raw(path: &str, raw: &[u8], flags: &FlagSet, message_id: &str) -> (r: Result<MessageDoc, MailError>)
    ensures
        match parsed_mail(raw@) {
            None => r == Err::<MessageDoc, MailError>(MailError::Unparsable),
            Some(m) => if body_collectable(m) {
                r is Ok && doc_fields(r->Ok_0, path@, m, flags@, message_id@)
            } else {
                r == Err::<MessageDoc, MailError>(MailError::TextCut)
            },
        },
{
    let mail = match parse_mail(raw) {
        Some(m) => m,
        None => return Err(MailError::Unparsable),
    };
    if mail.part_count != 0 {
        check_fits(&mail.parts);
        if try_collect_text_parts(&mail.parts).is_none() {
            return Err(MailError::TextCut);
        }
    }
    Ok(message_doc(path, &mail, flags, message_id))
}

} // verus!
