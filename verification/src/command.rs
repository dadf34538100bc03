//! The commands that an active connection may send.

use crate::error;
use crate::error::{invalid_input, other, Error};
use crate::limits::CommandLimits;
use crate::lines;
use crate::nonzero::NonZeroU32;
use crate::text;
use crate::text::{characters, push_numeral, push_text};
use vstd::prelude::*;

verus! {

/// A request for the metadata of one page of a fixed UID range.
#[derive(Clone, Copy, Debug, PartialEq, Eq)]
pub struct InventoryRequest {
    start: NonZeroU32,
    end: NonZeroU32,
    page_size: NonZeroU32,
}

impl InventoryRequest {
    pub closed spec fn first(self) -> NonZeroU32 {
        self.start
    }

    pub closed spec fn last(self) -> NonZeroU32 {
        self.end
    }

    pub closed spec fn size(self) -> NonZeroU32 {
        self.page_size
    }

    #[verifier::type_invariant]
    spec fn ordered(self) -> bool {
        self.start@ <= self.end@
    }

    /// A request for the range `start..=end`, refused where it is reversed.
    pub fn new(start: NonZeroU32, end: NonZeroU32, page_size: NonZeroU32) -> (result: Result<
        Self,
        Error,
    >)
        ensures
            result is Ok <==> start@ <= end@,
            result matches Ok(request) ==> request.first() == start && request.last() == end
                && request.size() == page_size,
            result matches Err(e) ==> e == error::input_error("inventory range is reversed"),
    {
        if start.get() > end.get() {
            return Err(invalid_input("inventory range is reversed"));
        }
        Ok(InventoryRequest { start, end, page_size })
    }

    pub fn start(&self) -> (start: NonZeroU32)
        ensures
            start == self.first(),
    {
        self.start
    }

    pub fn end(&self) -> (end: NonZeroU32)
        ensures
            end == self.last(),
    {
        self.end
    }

    pub fn page_size(&self) -> (page_size: NonZeroU32)
        ensures
            page_size == self.size(),
    {
        self.page_size
    }

    /// Whether two requests ask for the same page.
    pub fn same(&self, other: &InventoryRequest) -> (result: bool)
        ensures
            result == (*self == *other),
    {
        broadcast use crate::nonzero::lemma_nonzero_u32_view;

        self.start.get() == other.start.get() && self.end.get() == other.end.get()
            && self.page_size.get() == other.page_size.get()
    }
}

/// A request is its range and its page size, and a range is never reversed.
pub proof fn lemma_request_is_its_parts(a: InventoryRequest, b: InventoryRequest)
    requires
        a.first() == b.first(),
        a.last() == b.last(),
        a.size() == b.size(),
    ensures
        a == b,
{
}

/// The whole command surface of an active connection.
#[derive(Debug, PartialEq, Eq)]
pub enum UidOnlyCommand {
    Examine { encoded_mailbox: String },
    Inventory(InventoryRequest),
    BodyChunk { uid: NonZeroU32, offset: u32, count: NonZeroU32 },
    Noop,
    Logout,
}

/// A mailbox name with backslashes and double quotes escaped.
pub open spec fn escaped(name: Seq<char>) -> Seq<char>
    decreases name.len(),
{
    if name.len() == 0 {
        Seq::empty()
    } else {
        let before = escaped(name.drop_last());
        if name.last() == '\\' || name.last() == '"' {
            before.push('\\').push(name.last())
        } else {
            before.push(name.last())
        }
    }
}

/// An ASCII control character.
pub open spec fn control(c: char) -> bool {
    (c as int) < 32 || c as int == 127
}

pub open spec fn holds_control(name: Seq<char>) -> bool {
    exists|i: int| 0 <= i < name.len() && control(#[trigger] name[i])
}

/// The text of `EXAMINE` for a mailbox name in its wire encoding.
pub open spec fn examine_text(name: Seq<char>, limits: CommandLimits) -> Result<Seq<char>, Error> {
    let max = limits.max_mailbox_wire_bytes@;
    if vstd::utf8::encode_utf8(name).len() > max {
        Err(error::input_error("mailbox name exceeds configured wire limit"))
    } else if !text::ascii(name) {
        Err(error::input_error("mailbox must use Bichon's ASCII wire encoding"))
    } else if holds_control(name) {
        Err(error::input_error("mailbox contains a forbidden control byte"))
    } else if escaped(name).len() + 2 > usize::MAX {
        Err(error::other_error("mailbox wire byte count overflow"))
    } else if escaped(name).len() + 2 > max {
        Err(error::input_error("escaped mailbox exceeds configured wire limit"))
    } else {
        Ok("EXAMINE \""@ + escaped(name) + "\""@)
    }
}

/// The text of the `UID FETCH` that asks for one page of metadata.
pub open spec fn inventory_text(request: InventoryRequest, limits: CommandLimits) -> Result<
    Seq<char>,
    Error,
> {
    if request.size()@ > limits.max_inventory_page@ {
        Err(error::input_error("inventory page exceeds configured limit"))
    } else {
        Ok(
            "UID FETCH "@ + text::numeral(request.first()@ as nat) + ":"@ + text::numeral(
                request.last()@ as nat,
            ) + " (UID RFC822.SIZE INTERNALDATE) (PARTIAL 1:"@ + text::numeral(
                request.size()@ as nat,
            ) + ")"@,
        )
    }
}

/// The text of the `UID FETCH` that asks for some octets of one message.
pub open spec fn body_text(uid: u32, offset: u32, count: u32, limits: CommandLimits) -> Result<
    Seq<char>,
    Error,
> {
    if count > limits.max_body_chunk_bytes@ {
        Err(error::input_error("body chunk exceeds configured limit"))
    } else if offset + count > u32::MAX {
        Err(error::input_error("body chunk range overflows"))
    } else {
        Ok(
            "UID FETCH "@ + text::numeral(uid as nat) + " (UID RFC822.SIZE BODY.PEEK[]<"@
                + text::numeral(offset as nat) + "."@ + text::numeral(count as nat) + ">)"@,
        )
    }
}

/// The text of a command, or why it may not be sent.
pub open spec fn command_text(command: UidOnlyCommand, limits: CommandLimits) -> Result<
    Seq<char>,
    Error,
> {
    match command {
        UidOnlyCommand::Examine { encoded_mailbox } => examine_text(encoded_mailbox@, limits),
        UidOnlyCommand::Inventory(request) => inventory_text(request, limits),
        UidOnlyCommand::BodyChunk { uid, offset, count } => body_text(
            uid@,
            offset,
            count@,
            limits,
        ),
        UidOnlyCommand::Noop => Ok("NOOP"@),
        UidOnlyCommand::Logout => Ok("LOGOUT"@),
    }
}

/// The view of a rendering.
pub open spec fn rendered(result: Result<String, Error>) -> Result<Seq<char>, Error> {
    match result {
        Ok(text) => Ok(text@),
        Err(e) => Err(e),
    }
}

fn has_control(name: &[char]) -> (result: bool)
    requires
        text::ascii(name@),
    ensures
        result == holds_control(name@),
{
    let mut i: usize = 0;
    while i < name.len()
        invariant
            i <= name.len(),
            forall|j: int| 0 <= j < i ==> !control(#[trigger] name@[j]),
        decreases name.len() - i,
    {
        let c = name[i];
        if c < ' ' || c == '\u{7f}' {
            assert(control(name@[i as int]));
            return true;
        }
        i = i + 1;
    }
    false
}

/// The escaped name, or `None` where its length with both quotes overflows.
fn escape(name: &[char]) -> (result: Option<(String, usize)>)
    ensures
        result is Some <==> escaped(name@).len() + 2 <= usize::MAX,
        result matches Some((text, length)) ==> text@ == escaped(name@) && length == escaped(
            name@,
        ).len() + 2,
{
    let mut quoted = String::new();
    let mut length: usize = 2;
    let mut i: usize = 0;
    while i < name.len()
        invariant
            i <= name.len(),
            quoted@ == escaped(name@.take(i as int)),
            length == quoted@.len() + 2,
        decreases name.len() - i,
    {
        let c = name[i];
        proof {
            assert(name@.take(i + 1).drop_last() =~= name@.take(i as int));
            lemma_escaped_grows(name@, i + 1);
        }
        if c == '\\' || c == '"' {
            if length > usize::MAX - 2 {
                return None;
            }
            quoted.push('\\');
            length = length + 2;
        } else {
            if length == usize::MAX {
                return None;
            }
            length = length + 1;
        }
        quoted.push(c);
        i = i + 1;
    }
    assert(name@.take(i as int) =~= name@);
    Some((quoted, length))
}

proof fn lemma_escaped_grows(name: Seq<char>, k: int)
    requires
        0 <= k <= name.len(),
    ensures
        escaped(name.take(k)).len() <= escaped(name).len(),
    decreases name.len() - k,
{
    if k < name.len() {
        lemma_escaped_grows(name, k + 1);
        assert(name.take(k + 1).drop_last() =~= name.take(k));
    } else {
        assert(name.take(k) =~= name);
    }
}

impl UidOnlyCommand {
    /// The text of the command, within the limits.
    pub fn render(&self, limits: &CommandLimits) -> (result: Result<String, Error>)
        ensures
            rendered(result) == command_text(*self, *limits),
    {
        match self {
            UidOnlyCommand::Examine { encoded_mailbox } => {
                let max = limits.max_mailbox_wire_bytes.get();
                if encoded_mailbox.as_str().as_bytes().len() > max {
                    return Err(invalid_input("mailbox name exceeds configured wire limit"));
                }
                if !encoded_mailbox.as_str().is_ascii() {
                    return Err(invalid_input("mailbox must use Bichon's ASCII wire encoding"));
                }
                let name = characters(encoded_mailbox.as_str());
                if has_control(name.as_slice()) {
                    return Err(invalid_input("mailbox contains a forbidden control byte"));
                }
                match escape(name.as_slice()) {
                    None => Err(other("mailbox wire byte count overflow")),
                    Some((quoted, length)) => {
                        if length > max {
                            return Err(
                                invalid_input("escaped mailbox exceeds configured wire limit"),
                            );
                        }
                        let mut text = String::new();
                        push_text(&mut text, "EXAMINE \"");
                        push_text(&mut text, quoted.as_str());
                        push_text(&mut text, "\"");
                        assert(text@ =~= "EXAMINE \""@ + escaped(encoded_mailbox@) + "\""@);
                        Ok(text)
                    },
                }
            },
            UidOnlyCommand::Inventory(request) => {
                if request.page_size.get() > limits.max_inventory_page.get() {
                    return Err(invalid_input("inventory page exceeds configured limit"));
                }
                let mut text = String::new();
                push_text(&mut text, "UID FETCH ");
                push_numeral(&mut text, request.start.get() as u64);
                push_text(&mut text, ":");
                push_numeral(&mut text, request.end.get() as u64);
                push_text(&mut text, " (UID RFC822.SIZE INTERNALDATE) (PARTIAL 1:");
                push_numeral(&mut text, request.page_size.get() as u64);
                push_text(&mut text, ")");
                assert(Ok::<Seq<char>, Error>(text@) =~= inventory_text(*request, *limits));
                Ok(text)
            },
            UidOnlyCommand::BodyChunk { uid, offset, count } => {
                if count.get() > limits.max_body_chunk_bytes.get() {
                    return Err(invalid_input("body chunk exceeds configured limit"));
                }
                if offset.checked_add(count.get()).is_none() {
                    return Err(invalid_input("body chunk range overflows"));
                }
                let mut text = String::new();
                push_text(&mut text, "UID FETCH ");
                push_numeral(&mut text, uid.get() as u64);
                push_text(&mut text, " (UID RFC822.SIZE BODY.PEEK[]<");
                push_numeral(&mut text, *offset as u64);
                push_text(&mut text, ".");
                push_numeral(&mut text, count.get() as u64);
                push_text(&mut text, ">)");
                Ok(text)
            },
            UidOnlyCommand::Noop => Ok("NOOP".to_owned()),
            UidOnlyCommand::Logout => Ok("LOGOUT".to_owned()),
        }
    }
}

proof fn lemma_escaped_has_no_control(name: Seq<char>)
    requires
        text::ascii(name),
        !holds_control(name),
    ensures
        text::ascii(escaped(name)),
        !holds_control(escaped(name)),
    decreases name.len(),
{
    if name.len() > 0 {
        let before = name.drop_last();
        assert forall|i: int| 0 <= i < before.len() implies '\0' <= #[trigger] before[i]
            <= '\u{7f}' by {
            assert(before[i] == name[i]);
        }
        assert(!holds_control(before)) by {
            if holds_control(before) {
                let i = choose|i: int| 0 <= i < before.len() && control(#[trigger] before[i]);
                assert(control(name[i]));
            }
        }
        lemma_escaped_has_no_control(before);
        assert(!control(name[name.len() - 1]));
        assert('\0' <= name[name.len() - 1] <= '\u{7f}');
    }
}

/// A rendered command is one line of plain ASCII: no control character, so no
/// line end, can come in through a mailbox name or a number.
pub proof fn law_commands_hold_no_line_end(command: UidOnlyCommand, limits: CommandLimits)
    ensures
        command_text(command, limits) matches Ok(line) ==> text::ascii(line) && !holds_control(
            line,
        ),
{
    reveal_strlit("EXAMINE \"");
    reveal_strlit("\"");
    reveal_strlit("UID FETCH ");
    reveal_strlit(":");
    reveal_strlit(" (UID RFC822.SIZE INTERNALDATE) (PARTIAL 1:");
    reveal_strlit(")");
    reveal_strlit(" (UID RFC822.SIZE BODY.PEEK[]<");
    reveal_strlit(".");
    reveal_strlit(">)");
    reveal_strlit("NOOP");
    reveal_strlit("LOGOUT");
    match command {
        UidOnlyCommand::Examine { encoded_mailbox } => {
            if text::ascii(encoded_mailbox@) && !holds_control(encoded_mailbox@) {
                lemma_escaped_has_no_control(encoded_mailbox@);
            }
        },
        UidOnlyCommand::Inventory(request) => {
            text::lemma_numeral_is_digits(request.first()@ as nat);
            text::lemma_numeral_is_digits(request.last()@ as nat);
            text::lemma_numeral_is_digits(request.size()@ as nat);
        },
        UidOnlyCommand::BodyChunk { uid, offset, count } => {
            text::lemma_numeral_is_digits(uid@ as nat);
            text::lemma_numeral_is_digits(offset as nat);
            text::lemma_numeral_is_digits(count@ as nat);
        },
        _ => {},
    }
}

/// Different mailbox names are escaped differently.
pub proof fn law_escaping_is_injective(a: Seq<char>, b: Seq<char>)
    requires
        escaped(a) == escaped(b),
    ensures
        a == b,
    decreases a.len(),
{
    if a.len() > 0 && b.len() > 0 {
        let text = escaped(a);
        assert(text.last() == a.last());
        assert(text.last() == b.last());
        if a.last() == '\\' || a.last() == '"' {
            assert(escaped(a.drop_last()) =~= text.drop_last().drop_last());
            assert(escaped(b.drop_last()) =~= text.drop_last().drop_last());
        } else {
            assert(escaped(a.drop_last()) =~= text.drop_last());
            assert(escaped(b.drop_last()) =~= text.drop_last());
        }
        law_escaping_is_injective(a.drop_last(), b.drop_last());
        assert(a =~= a.drop_last().push(a.last()));
        assert(b =~= b.drop_last().push(b.last()));
    } else if a.len() == 0 && b.len() > 0 {
        assert(escaped(b).len() > 0);
    } else if b.len() == 0 && a.len() > 0 {
        assert(escaped(a).len() > 0);
    } else {
        assert(a =~= b);
    }
}

proof fn lemma_escaped_from_front(name: Seq<char>)
    requires
        name.len() > 0,
    ensures
        escaped(name) == escaped(name.take(1)) + escaped(name.skip(1)),
    decreases name.len(),
{
    let tail = name.skip(1);
    reveal_with_fuel(escaped, 2);
    if tail.len() == 0 {
        assert(name.take(1) =~= name);
        assert(escaped(tail) =~= Seq::<char>::empty());
        assert(escaped(name) + escaped(tail) =~= escaped(name));
    } else {
        lemma_escaped_from_front(name.drop_last());
        assert(name.drop_last().take(1) =~= name.take(1));
        assert(name.drop_last().skip(1) =~= tail.drop_last());
        assert(escaped(name) =~= escaped(name.take(1)) + escaped(tail));
    }
}

proof fn lemma_quoted_text_ends(line: Seq<u8>, name: Seq<char>, from: int)
    requires
        text::ascii(name),
        0 <= from,
        from + escaped(name).len() < line.len(),
        line.subrange(from, from + escaped(name).len() as int) == text::word_bytes(escaped(name)),
        line[from + escaped(name).len()] == text::QUOTE,
    ensures
        lines::quoted_end(line, from) == from + escaped(name).len() + 1,
    decreases name.len(),
{
    if name.len() > 0 {
        lemma_escaped_from_front(name);
        let head = escaped(name.take(1));
        let tail = name.skip(1);
        assert(text::ascii(tail)) by {
            assert forall|i: int| 0 <= i < tail.len() implies '\0' <= #[trigger] tail[i]
                <= '\u{7f}' by {
                assert(tail[i] == name[i + 1]);
            }
        }
        reveal_with_fuel(escaped, 2);
        assert(name.take(1).drop_last() =~= Seq::<char>::empty());
        let bytes = text::word_bytes(escaped(name));
        assert(line[from] == line.subrange(from, from + escaped(name).len() as int)[0]);
        assert(bytes[0] == escaped(name)[0] as u8);
        assert(escaped(name)[0] == head[0]);
        assert('\0' <= name[0] <= '\u{7f}');
        if head.len() == 2 {
            assert(line[from + 1] == line.subrange(from, from + escaped(name).len() as int)[1]);
        }
        let next = from + head.len() as int;
        assert(line.subrange(next, next + escaped(tail).len() as int) =~= text::word_bytes(
            escaped(tail),
        )) by {
            assert forall|i: int| 0 <= i < escaped(tail).len() implies line[next + i]
                == escaped(tail)[i] as u8 by {
                assert(line.subrange(from, from + escaped(name).len() as int)[head.len() + i]
                    == bytes[head.len() + i]);
                assert(escaped(name)[head.len() + i] == escaped(tail)[i]);
            }
        }
        lemma_quoted_text_ends(line, tail, next);
    }
}

/// The quoted mailbox of an `EXAMINE` ends at its last byte: nothing inside the
/// name closes the quotes.
pub proof fn law_examine_quotes_whole_name(name: Seq<char>, limits: CommandLimits)
    ensures
        examine_text(name, limits) matches Ok(line) ==> lines::quoted_end(
            text::word_bytes(line),
            9,
        ) == line.len(),
{
    if let Ok(line) = examine_text(name, limits) {
        reveal_strlit("EXAMINE \"");
        reveal_strlit("\"");
        let bytes = text::word_bytes(line);
        let inner = escaped(name);
        assert(bytes.subrange(9, 9 + inner.len() as int) =~= text::word_bytes(inner));
        assert(bytes[9 + inner.len() as int] == text::QUOTE);
        lemma_quoted_text_ends(bytes, name, 9);
    }
}

/// A text starts with a word.
pub open spec fn starts_with(line: Seq<char>, word: Seq<char>) -> bool {
    word.len() <= line.len() && line.take(word.len() as int) == word
}

/// No command changes a mailbox: each examines one, fetches by UID without setting
/// flags, does nothing, or logs out.
pub proof fn law_commands_are_read_only(command: UidOnlyCommand, limits: CommandLimits)
    ensures
        command_text(command, limits) matches Ok(line) ==> {
            ||| starts_with(line, "EXAMINE \""@)
            ||| starts_with(line, "UID FETCH "@)
            ||| line == "NOOP"@
            ||| line == "LOGOUT"@
        },
{
    if let Ok(line) = command_text(command, limits) {
        match command {
            UidOnlyCommand::Examine { .. } => {
                assert(line.take("EXAMINE \""@.len() as int) =~= "EXAMINE \""@);
            },
            UidOnlyCommand::Inventory(_) => {
                assert(line.take("UID FETCH "@.len() as int) =~= "UID FETCH "@);
            },
            UidOnlyCommand::BodyChunk { .. } => {
                assert(line.take("UID FETCH "@.len() as int) =~= "UID FETCH "@);
            },
            _ => {},
        }
    }
}

} // verus!
