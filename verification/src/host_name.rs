//! The name a host stored in a device.
//!
//! A device keeps each name in pages of fixed size and reports its length
//! apart from them.

use vstd::prelude::*;

verus! {

/// Bytes in one page of a stored name.
pub const PAGE_LEN: usize = 14;

/// Whether a character has the Unicode property `White_Space`.
pub open spec fn is_white_space(character: char) -> bool {
    let scalar = character as u32;
    ||| 0x09 <= scalar <= 0x0d
    ||| scalar == 0x20
    ||| scalar == 0x85
    ||| scalar == 0xa0
    ||| scalar == 0x1680
    ||| 0x2000 <= scalar <= 0x200a
    ||| scalar == 0x2028
    ||| scalar == 0x2029
    ||| scalar == 0x202f
    ||| scalar == 0x205f
    ||| scalar == 0x3000
}

/// `char::is_whitespace`: whether a character has the property `White_Space`
/// of the Unicode Character Database, which lists the characters of
/// [`is_white_space`].
pub assume_specification[ char::is_whitespace ](character: char) -> (white: bool)
    ensures
        white == is_white_space(character),
;

/// The text of bytes that need not be UTF-8.
pub uninterp spec fn lossy_text(raw: Seq<u8>) -> Seq<char>;

/// `String::from_utf8_lossy`. Valid UTF-8 is decoded as it is. What becomes
/// of other bytes, beyond that they give way to replacement characters, is
/// left to the name; it depends on the bytes alone.
#[verifier::external_body]
fn decode_lossily(raw: &[u8]) -> (text: String)
    ensures
        text@ == lossy_text(raw@),
        vstd::utf8::valid_utf8(raw@) ==> text@ == vstd::utf8::decode_utf8(raw@),
{
    String::from_utf8_lossy(raw).into_owned()
}

/// A text without the NULs at its end.
pub open spec fn without_padding(text: Seq<char>) -> Seq<char>
    decreases text.len(),
{
    if text.len() > 0 && text.last() == '\0' {
        without_padding(text.drop_last())
    } else {
        text
    }
}

/// A text without the white space at its end.
pub open spec fn trimmed_at_end(text: Seq<char>) -> Seq<char>
    decreases text.len(),
{
    if text.len() > 0 && is_white_space(text.last()) {
        trimmed_at_end(text.drop_last())
    } else {
        text
    }
}

/// A text without the white space at its start.
pub open spec fn trimmed_at_start(text: Seq<char>) -> Seq<char>
    decreases text.len(),
{
    if text.len() > 0 && is_white_space(text[0]) {
        trimmed_at_start(text.drop_first())
    } else {
        text
    }
}

/// The name in a text: NULs at its end are padding, white space around it is
/// no content.
pub open spec fn name_in(text: Seq<char>) -> Seq<char> {
    trimmed_at_start(trimmed_at_end(without_padding(text)))
}

/// The name a text holds, if it holds one: a device that never had a name
/// written reports blanks.
#[must_use]
pub fn name_in_text(text: &str) -> (name: Option<String>)
    ensures
        match name {
            Some(name) => name@ == name_in(text@) && name@.len() > 0,
            None => name_in(text@).len() == 0,
        },
{
    let mut end: usize = text.unicode_len();
    assert(text@.take(end as int) =~= text@);
    while end > 0 && text.get_char(end - 1) == '\0'
        invariant
            end <= text@.len(),
            without_padding(text@.take(end as int)) == without_padding(text@),
        ensures
            end <= text@.len(),
            without_padding(text@) == text@.take(end as int),
        decreases end,
    {
        assert(text@.take(end as int).drop_last() =~= text@.take(end - 1));
        end = end - 1;
    }
    let ghost padded = text@.take(end as int);
    while end > 0 && text.get_char(end - 1).is_whitespace()
        invariant
            end <= text@.len(),
            trimmed_at_end(text@.take(end as int)) == trimmed_at_end(padded),
        ensures
            end <= text@.len(),
            trimmed_at_end(padded) == text@.take(end as int),
        decreases end,
    {
        assert(text@.take(end as int).drop_last() =~= text@.take(end - 1));
        end = end - 1;
    }
    let ghost ended = text@.take(end as int);
    let mut start: usize = 0;
    assert(text@.subrange(0, end as int) =~= ended);
    while start < end && text.get_char(start).is_whitespace()
        invariant
            start <= end <= text@.len(),
            trimmed_at_start(text@.subrange(start as int, end as int)) == trimmed_at_start(ended),
        ensures
            start <= end <= text@.len(),
            trimmed_at_start(ended) == text@.subrange(start as int, end as int),
        decreases end - start,
    {
        assert(text@.subrange(start as int, end as int).drop_first() =~= text@.subrange(
            start + 1,
            end as int,
        ));
        start = start + 1;
    }
    if start == end {
        None
    } else {
        Some(text.substring_char(start, end).to_owned())
    }
}

/// Decode a stored name for display.
///
/// The field is a fixed-width byte array, so trailing NULs are padding rather
/// than content, and a device that never had a name written reports blanks.
#[must_use]
pub fn decode_name(raw: &[u8]) -> (name: Option<String>)
    ensures
        match name {
            Some(name) => name@ == name_in(lossy_text(raw@)) && name@.len() > 0,
            None => name_in(lossy_text(raw@)).len() == 0,
        },
        vstd::utf8::valid_utf8(raw@) ==> match name {
            Some(name) => name@ == name_in(vstd::utf8::decode_utf8(raw@)),
            None => name_in(vstd::utf8::decode_utf8(raw@)).len() == 0,
        },
{
    let text: String = decode_lossily(raw);
    name_in_text(text.as_str())
}

/// A stored name being put together from its pages.
///
/// The device reports the length separately from the pages, so the last page
/// is truncated to it rather than trimmed of padding: a name may legitimately
/// end in a byte that looks like padding.
#[derive(Debug)]
pub struct NamePages {
    wanted: usize,
    raw: Vec<u8>,
    page: u8,
}

impl NamePages {
    /// How long the name is said to be.
    pub closed spec fn wanted(self) -> nat {
        self.wanted as nat
    }

    /// The bytes of the pages read so far.
    pub closed spec fn bytes(self) -> Seq<u8> {
        self.raw@
    }

    #[verifier::type_invariant]
    spec fn keeps_count(self) -> bool {
        &&& self.wanted <= u8::MAX
        &&& self.raw@.len() == PAGE_LEN * self.page
        &&& self.page > 0 ==> PAGE_LEN * (self.page - 1) < self.wanted
    }

    /// Start on a name of `name_len` bytes. A name without length is none.
    #[must_use]
    pub fn start(name_len: u8) -> (pages: Option<Self>)
        ensures
            match pages {
                Some(pages) => {
                    &&& name_len > 0
                    &&& pages.wanted() == name_len
                    &&& pages.bytes() == Seq::<u8>::empty()
                },
                None => name_len == 0,
            },
    {
        if name_len == 0 {
            return None;
        }
        Some(NamePages { wanted: name_len as usize, raw: Vec::new(), page: 0 })
    }

    /// The page to read next, or `None` once the name is covered.
    #[must_use]
    pub fn next_page(&self) -> (page: Option<u8>)
        ensures
            match page {
                Some(page) => {
                    &&& self.bytes().len() < self.wanted()
                    &&& self.bytes().len() == PAGE_LEN * page
                },
                None => self.bytes().len() >= self.wanted(),
            },
    {
        proof {
            use_type_invariant(self);
        }
        if self.raw.len() < self.wanted {
            Some(self.page)
        } else {
            None
        }
    }

    /// Take the page that was asked for.
    #[must_use]
    pub fn with_page(self, body: &[u8; 14]) -> (pages: Self)
        requires
            self.bytes().len() < self.wanted(),
        ensures
            pages.wanted() == self.wanted(),
            pages.bytes() == self.bytes() + body@,
    {
        proof {
            use_type_invariant(&self);
        }
        let wanted: usize = self.wanted;
        let page: u8 = self.page;
        let mut raw: Vec<u8> = self.raw;
        raw.extend_from_slice(body);
        NamePages { wanted, raw, page: page + 1 }
    }

    /// The name, from what was read of it: no further page is needed, or the
    /// next one could not be read.
    #[must_use]
    pub fn finish(self) -> (name: Option<String>)
        ensures
            ({
                let raw = if self.bytes().len() > self.wanted() {
                    self.bytes().take(self.wanted() as int)
                } else {
                    self.bytes()
                };
                &&& match name {
                    Some(name) => name@ == name_in(lossy_text(raw)) && name@.len() > 0,
                    None => name_in(lossy_text(raw)).len() == 0,
                }
                &&& vstd::utf8::valid_utf8(raw) ==> match name {
                    Some(name) => name@ == name_in(vstd::utf8::decode_utf8(raw)),
                    None => name_in(vstd::utf8::decode_utf8(raw)).len() == 0,
                }
            }),
    {
        let wanted: usize = self.wanted;
        let mut raw: Vec<u8> = self.raw;
        let ghost whole = raw@;
        raw.truncate(wanted);
        proof {
            if whole.len() > wanted {
                assert(raw@ =~= whole.take(wanted as int));
            } else {
                assert(raw@ =~= whole);
            }
        }
        decode_name(raw.as_slice())
    }
}

/// A name is a stretch of its text with nothing but blanks around it and
/// nothing but NULs after them: what is cut off at the start is white space,
/// what is cut off at the end is white space and then every NUL that ends the
/// text. The name itself is empty or neither starts nor ends in white space.
pub proof fn law_only_blanks_and_padding_are_cut(text: Seq<char>)
    ensures
        exists|start: int, end: int, padding: int|
            #![trigger text.subrange(start, end), text.take(padding)]
            {
                &&& 0 <= start <= end <= padding <= text.len()
                &&& name_in(text) == text.subrange(start, end)
                &&& forall|i: int| 0 <= i < start ==> is_white_space(#[trigger] text[i])
                &&& forall|i: int| end <= i < padding ==> is_white_space(#[trigger] text[i])
                &&& forall|i: int| padding <= i < text.len() ==> #[trigger] text[i] == '\0'
                &&& padding > 0 ==> text[padding - 1] != '\0'
                &&& start < end ==> !is_white_space(text[start]) && !is_white_space(text[end - 1])
            },
{
    let padding = without_padding(text).len() as int;
    lemma_padding_is_nuls(text);
    let unpadded = without_padding(text);
    assert(unpadded =~= text.take(padding));
    lemma_end_is_blank(unpadded);
    let ended = trimmed_at_end(unpadded);
    let end = ended.len() as int;
    lemma_trimmed_at_end(unpadded);
    lemma_start_is_blank(ended);
    lemma_trimmed_at_start(ended);
    let start = (end - trimmed_at_start(ended).len()) as int;
    assert(ended =~= text.take(end));
    assert(name_in(text) =~= text.subrange(start, end));
    assert forall|i: int| 0 <= i < start implies is_white_space(#[trigger] text[i]) by {
        assert(is_white_space(ended[i]));
    }
    assert forall|i: int| end <= i < padding implies is_white_space(#[trigger] text[i]) by {
        assert(is_white_space(unpadded[i]));
    }
    if start < end {
        assert(trimmed_at_start(ended)[0] == text[start]);
        assert(ended.last() == text[end - 1]);
    }
}

proof fn lemma_padding_is_nuls(text: Seq<char>)
    ensures
        without_padding(text).len() <= text.len(),
        without_padding(text) == text.take(without_padding(text).len() as int),
        forall|i: int|
            without_padding(text).len() <= i < text.len() ==> #[trigger] text[i] == '\0',
        without_padding(text).len() > 0 ==> without_padding(text).last() != '\0',
    decreases text.len(),
{
    if text.len() > 0 && text.last() == '\0' {
        let front = text.drop_last();
        lemma_padding_is_nuls(front);
        assert(without_padding(text) =~= text.take(without_padding(text).len() as int));
        assert forall|i: int| without_padding(text).len() <= i < text.len() implies #[trigger] text[i]
            == '\0' by {
            if i < front.len() {
                assert(front[i] == '\0');
            }
        }
    } else {
        assert(text.take(text.len() as int) =~= text);
    }
}

proof fn lemma_end_is_blank(text: Seq<char>)
    ensures
        trimmed_at_end(text).len() <= text.len(),
        trimmed_at_end(text) == text.take(trimmed_at_end(text).len() as int),
        forall|i: int|
            trimmed_at_end(text).len() <= i < text.len() ==> is_white_space(#[trigger] text[i]),
    decreases text.len(),
{
    if text.len() > 0 && is_white_space(text.last()) {
        let front = text.drop_last();
        lemma_end_is_blank(front);
        assert(trimmed_at_end(text) =~= text.take(trimmed_at_end(text).len() as int));
        assert forall|i: int| trimmed_at_end(text).len() <= i < text.len() implies is_white_space(
            #[trigger] text[i],
        ) by {
            if i < front.len() {
                assert(is_white_space(front[i]));
            }
        }
    } else {
        assert(text.take(text.len() as int) =~= text);
    }
}

proof fn lemma_start_is_blank(text: Seq<char>)
    ensures
        trimmed_at_start(text).len() <= text.len(),
        trimmed_at_start(text) == text.skip(text.len() - trimmed_at_start(text).len()),
        forall|i: int|
            0 <= i < text.len() - trimmed_at_start(text).len() ==> is_white_space(
                #[trigger] text[i],
            ),
    decreases text.len(),
{
    if text.len() > 0 && is_white_space(text[0]) {
        let rest = text.drop_first();
        lemma_start_is_blank(rest);
        assert(trimmed_at_start(text) =~= text.skip(text.len() - trimmed_at_start(text).len()));
        assert forall|i: int|
            0 <= i < text.len() - trimmed_at_start(text).len() implies is_white_space(
            #[trigger] text[i],
        ) by {
            if i > 0 {
                assert(is_white_space(rest[i - 1]));
            }
        }
    } else {
        assert(text.skip(0) =~= text);
    }
}

/// A name neither starts nor ends in white space, and trimming it again
/// changes nothing.
pub proof fn law_a_name_has_no_blanks_around_it(text: Seq<char>)
    ensures
        name_in(text).len() > 0 ==> !is_white_space(name_in(text)[0]) && !is_white_space(
            name_in(text).last(),
        ),
        trimmed_at_start(trimmed_at_end(name_in(text))) == name_in(text),
{
    let ended = trimmed_at_end(without_padding(text));
    lemma_trimmed_at_end(without_padding(text));
    lemma_trimmed_at_start(ended);
}

proof fn lemma_trimmed_at_end(text: Seq<char>)
    ensures
        trimmed_at_end(text).len() > 0 ==> !is_white_space(trimmed_at_end(text).last()),
    decreases text.len(),
{
    if text.len() > 0 && is_white_space(text.last()) {
        lemma_trimmed_at_end(text.drop_last());
    }
}

proof fn lemma_trimmed_at_start(text: Seq<char>)
    ensures
        trimmed_at_start(text).len() > 0 ==> {
            &&& !is_white_space(trimmed_at_start(text)[0])
            &&& trimmed_at_start(text).last() == text.last()
        },
    decreases text.len(),
{
    if text.len() > 0 && is_white_space(text[0]) {
        lemma_trimmed_at_start(text.drop_first());
    }
}

/// Padding is not content: NULs after a text leave the name in it as it was.
pub proof fn law_a_padded_name_keeps_its_content(text: Seq<char>, padding: nat)
    ensures
        name_in(text + Seq::new(padding, |i: int| '\0')) == name_in(text),
    decreases padding,
{
    let nuls = Seq::new(padding, |i: int| '\0');
    if padding == 0 {
        assert(text + nuls =~= text);
    } else {
        let fewer = Seq::new((padding - 1) as nat, |i: int| '\0');
        assert((text + nuls).drop_last() =~= text + fewer);
        law_a_padded_name_keeps_its_content(text, (padding - 1) as nat);
    }
}

/// Padding and blanks are not names: NULs after white space hold no name.
pub proof fn law_padding_and_blanks_are_not_names(blanks: Seq<char>, padding: nat)
    requires
        forall|i: int| 0 <= i < blanks.len() ==> is_white_space(#[trigger] blanks[i]),
    ensures
        name_in(blanks + Seq::new(padding, |i: int| '\0')).len() == 0,
{
    law_a_padded_name_keeps_its_content(blanks, padding);
    if blanks.len() > 0 {
        assert(is_white_space(blanks[blanks.len() - 1]));
    }
    assert(without_padding(blanks) == blanks);
    lemma_blanks_are_trimmed(blanks);
}

proof fn lemma_blanks_are_trimmed(blanks: Seq<char>)
    requires
        forall|i: int| 0 <= i < blanks.len() ==> is_white_space(#[trigger] blanks[i]),
    ensures
        trimmed_at_end(blanks).len() == 0,
    decreases blanks.len(),
{
    if blanks.len() > 0 {
        assert(is_white_space(blanks[blanks.len() - 1]));
        assert forall|i: int| 0 <= i < blanks.drop_last().len() implies is_white_space(
            #[trigger] blanks.drop_last()[i],
        ) by {
            assert(is_white_space(blanks[i]));
        }
        lemma_blanks_are_trimmed(blanks.drop_last());
    }
}

} // verus!
