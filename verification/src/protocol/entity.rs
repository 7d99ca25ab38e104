//! Bot entities: identifiers, avatars, capabilities and the bot record.
//!
//! The central piece is [`BotId`] and its backward-compatible decode: on
//! read, an identifier is accepted either in the legacy framing
//! `"<n>;<id>@<provider>"` (`n` the decimal byte length of `<id>`, the
//! provider suffix discarded) or as the bare canonical string. On write the
//! bare form is always emitted.

use vstd::prelude::*;
use vstd::string::*;
use vstd::utf8::*;

verus! {

/// Whether `c` is an ASCII decimal digit.
pub open spec fn is_dec_digit(c: char) -> bool {
    48 <= c as u32 && c as u32 <= 57
}

/// The numeric value of an ASCII decimal digit.
pub open spec fn digit_val(c: char) -> nat
    recommends
        is_dec_digit(c),
{
    (c as u32 - 48) as nat
}

/// Whether every character of `s` is an ASCII decimal digit.
pub open spec fn all_dec_digits(s: Seq<char>) -> bool {
    forall|j: int| 0 <= j < s.len() ==> is_dec_digit(#[trigger] s[j])
}

/// The value of `s` read as a decimal numeral.
pub open spec fn dec_value(s: Seq<char>) -> nat
    decreases s.len(),
{
    if s.len() == 0 {
        0
    } else {
        dec_value(s.drop_last()) * 10 + digit_val(s.last())
    }
}

/// Whether `s` is accepted by a decimal `usize` parse: an optional leading
/// `'+'`, then at least one digit, with a value that fits in `usize`.
pub open spec fn parses_as_usize(s: Seq<char>) -> bool {
    if s.len() >= 1 && s[0] == '+' {
        s.len() >= 2 && all_dec_digits(s.skip(1)) && dec_value(s.skip(1)) <= usize::MAX
    } else {
        s.len() >= 1 && all_dec_digits(s) && dec_value(s) <= usize::MAX
    }
}

/// The value such a parse yields.
pub open spec fn parsed_usize(s: Seq<char>) -> nat
    recommends
        parses_as_usize(s),
{
    if s.len() >= 1 && s[0] == '+' {
        dec_value(s.skip(1))
    } else {
        dec_value(s)
    }
}

/// Whether `i` is the position of the first occurrence of `c` in `s`.
pub open spec fn first_at(s: Seq<char>, c: char, i: int) -> bool {
    &&& 0 <= i < s.len()
    &&& s[i] == c
    &&& forall|j: int| 0 <= j < i ==> s[j] != c
}

/// Whether `s` holds the character `c` at all.
pub open spec fn has_char(s: Seq<char>, c: char) -> bool {
    exists|i: int| first_at(s, c, i)
}

/// The position of the first occurrence of `c` in `s`.
pub open spec fn first_pos(s: Seq<char>, c: char) -> int
    recommends
        has_char(s, c),
{
    choose|i: int| first_at(s, c, i)
}

/// Whether `raw` is in the legacy identifier framing: a decimal byte length
/// before the first `';'`, and after it at least that many bytes of id, then
/// at least one more byte (the discarded `'@'` separator), with both cuts on
/// character boundaries.
pub open spec fn legacy_parses(raw: Seq<char>) -> bool {
    &&& has_char(raw, ';')
    &&& {
        let i = first_pos(raw, ';');
        let prefix = raw.take(i);
        &&& parses_as_usize(prefix)
        &&& {
            let n = parsed_usize(prefix) as int;
            let rest = encode_utf8(raw.skip(i + 1));
            &&& n + 1 <= rest.len()
            &&& is_char_boundary(rest, n)
            &&& is_char_boundary(rest, n + 1)
        }
    }
}

/// The canonical id the legacy framing carries: the first `n` bytes after
/// the first `';'`, read back as characters.
pub open spec fn legacy_id(raw: Seq<char>) -> Seq<char>
    recommends
        legacy_parses(raw),
{
    let i = first_pos(raw, ';');
    let n = parsed_usize(raw.take(i)) as int;
    decode_utf8(encode_utf8(raw.skip(i + 1)).take(n))
}

/// What decoding a wire identifier yields: the legacy framing's id where
/// that framing applies, otherwise the raw string verbatim.
pub open spec fn canonical_id(raw: Seq<char>) -> Seq<char> {
    if legacy_parses(raw) {
        legacy_id(raw)
    } else {
        raw
    }
}

/// A position holding the first occurrence of `c` is the position the spec
/// names.
pub proof fn lemma_first_at(s: Seq<char>, c: char, i: int)
    requires
        first_at(s, c, i),
    ensures
        has_char(s, c),
        first_pos(s, c) == i,
{
    assert(has_char(s, c));
    let k = first_pos(s, c);
    assert(first_at(s, c, k));
    if k < i {
        assert(s[k] == c);
        assert(false);
    }
    if k > i {
        assert(s[i] == c);
        assert(false);
    }
}

/// A decimal numeral is no smaller than any of its prefixes.
proof fn lemma_dec_value_take_le(s: Seq<char>, k: int)
    requires
        0 <= k <= s.len(),
    ensures
        dec_value(s.take(k)) <= dec_value(s),
    decreases s.len() - k,
{
    if k == s.len() {
        assert(s.take(k) =~= s);
    } else {
        assert(s.take(k + 1).drop_last() =~= s.take(k));
        assert(dec_value(s.take(k + 1)) == dec_value(s.take(k)) * 10 + digit_val(
            s.take(k + 1).last(),
        ));
        assert(dec_value(s.take(k)) * 10 >= dec_value(s.take(k)));
        lemma_dec_value_take_le(s, k + 1);
    }
}

/// Finds the first occurrence of `target` in `s`, as a character index.
pub(crate) fn find_first(s: &str, target: char) -> (r: Option<usize>)
    ensures
        r matches Some(i) ==> first_at(s@, target, i as int),
        r is None ==> !has_char(s@, target),
{
    let len = s.unicode_len();
    let mut i: usize = 0;
    while i < len
        invariant
            i <= len,
            len == s@.len(),
            forall|j: int| 0 <= j < i ==> s@[j] != target,
        decreases len - i,
    {
        if s.get_char(i) == target {
            return Some(i);
        }
        i += 1;
    }
    None
}

/// Compares two strings character by character.
pub(crate) fn str_eq(a: &str, b: &str) -> (r: bool)
    ensures
        r == (a@ == b@),
{
    let alen = a.unicode_len();
    let blen = b.unicode_len();
    if alen != blen {
        return false;
    }
    let mut i: usize = 0;
    while i < alen
        invariant
            i <= alen,
            alen == a@.len(),
            alen == b@.len(),
            forall|j: int| 0 <= j < i ==> a@[j] == b@[j],
        decreases alen - i,
    {
        if a.get_char(i) != b.get_char(i) {
            return false;
        }
        i += 1;
    }
    proof {
        assert(a@ =~= b@);
    }
    true
}

/// Parses `s` as a decimal `usize`, accepting an optional leading `'+'` and
/// rejecting empty input, non-digits and overflow.
fn parse_usize(s: &str) -> (r: Option<usize>)
    ensures
        r is Some <==> parses_as_usize(s@),
        r matches Some(n) ==> n as nat == parsed_usize(s@),
{
    let len = s.unicode_len();
    if len == 0 {
        return None;
    }
    let start: usize = if s.get_char(0) == '+' {
        1
    } else {
        0
    };
    if len == start {
        return None;
    }
    let ghost digits = s@.skip(start as int);
    proof {
        if start == 0 {
            assert(digits =~= s@);
        }
    }
    let mut acc: usize = 0;
    let mut j: usize = start;
    while j < len
        invariant
            start <= j <= len,
            len == s@.len(),
            start == 0 || start == 1,
            start == 1 ==> s@[0] == '+' && digits == s@.skip(1),
            start == 0 ==> !(s@.len() >= 1 && s@[0] == '+') && digits == s@,
            digits == s@.skip(start as int),
            all_dec_digits(s@.subrange(start as int, j as int)),
            acc as nat == dec_value(s@.subrange(start as int, j as int)),
        decreases len - j,
    {
        let c = s.get_char(j);
        let u = c as u32;
        proof {
            assert(s@.subrange(start as int, j + 1).drop_last() =~= s@.subrange(
                start as int,
                j as int,
            ));
            assert(s@.subrange(start as int, j + 1).last() == s@[j as int]);
        }
        if !(48 <= u && u <= 57) {
            proof {
                let w = j - start;
                assert(digits[w] == s@[j as int]);
                assert(!all_dec_digits(digits));
            }
            return None;
        }
        let d = (u - 48) as usize;
        let next = match acc.checked_mul(10) {
            Some(a) => a.checked_add(d),
            None => None,
        };
        match next {
            Some(v) => {
                acc = v;
            },
            None => {
                proof {
                    assert(dec_value(s@.subrange(start as int, j + 1)) > usize::MAX);
                    lemma_dec_value_take_le(digits, j + 1 - start);
                    assert(digits.take(j + 1 - start) =~= s@.subrange(start as int, j + 1));
                    assert(dec_value(digits) > usize::MAX);
                }
                return None;
            },
        }
        j += 1;
    }
    proof {
        assert(s@.subrange(start as int, len as int) =~= digits);
    }
    Some(acc)
}

/// Identifies any kind of bot, local or remote, model or agent.
///
/// Normally this is just the model name or id as known by the provider. The
/// value is written out bare; [`BotId::decode`] also accepts the legacy
/// framing on read.
#[derive(Debug, PartialEq, Eq, Hash, Default)]
pub struct BotId(String);

impl View for BotId {
    type V = Seq<char>;

    closed spec fn view(&self) -> Seq<char> {
        self.0@
    }
}

impl Clone for BotId {
    fn clone(&self) -> (r: Self)
        ensures
            r == *self,
    {
        BotId(self.0.clone())
    }
}

impl BotId {
    /// Creates a new bot id from a provider specific id.
    pub fn new(id: &str) -> (r: Self)
        ensures
            r@ == id@,
    {
        BotId(id.to_owned())
    }

    /// The bare canonical form; encoding never re-introduces the legacy
    /// framing.
    pub fn as_str(&self) -> (r: &str)
        ensures
            r@ == self@,
    {
        self.0.as_str()
    }

    /// The id of the bot as it is known by its provider. The "model name".
    ///
    /// Equivalent to [`BotId::as_str`].
    pub fn id(&self) -> (r: &str)
        ensures
            r@ == self@,
    {
        self.as_str()
    }

    /// Reads a wire identifier, trying the legacy framing first and falling
    /// back to the bare form when that framing does not apply.
    pub fn decode(raw: &str) -> (r: Self)
        ensures
            r@ == canonical_id(raw@),
    {
        broadcast use encode_utf8_valid_utf8, vstd::slice::group_slice_axioms;

        let len = raw.unicode_len();
        let i = match find_first(raw, ';') {
            None => {
                return BotId::new(raw);
            },
            Some(i) => i,
        };
        proof {
            lemma_first_at(raw@, ';', i as int);
        }
        let prefix = raw.substring_char(0, i);
        proof {
            assert(prefix@ =~= raw@.take(i as int));
        }
        let n = match parse_usize(prefix) {
            None => {
                return BotId::new(raw);
            },
            Some(n) => n,
        };
        let rest = raw.substring_char(i + 1, len);
        let ghost rest_bytes = encode_utf8(raw@.skip(i + 1));
        proof {
            assert(rest.spec_bytes() == rest_bytes);
        }
        let rest_byte_len = rest.as_bytes().len();
        proof {
            assert(rest_byte_len == rest_bytes.len());
        }
        if n >= rest_byte_len {
            return BotId::new(raw);
        }
        if !(rest.is_char_boundary(n) && rest.is_char_boundary(n + 1)) {
            return BotId::new(raw);
        }
        let (id_part, _tail) = rest.split_at(n);
        proof {
            assert(legacy_parses(raw@));
            assert(encode_utf8(id_part@) =~= rest_bytes.take(n as int));
            encode_utf8_decode_utf8(id_part@);
            assert(id_part@ == legacy_id(raw@));
        }
        BotId::new(id_part)
    }
}

/// The picture/avatar of an entity, represented in one of two ways.
#[derive(Debug, PartialEq)]
pub enum EntityAvatar {
    /// Normally, one or two graphemes representing the entity.
    Text(String),
    /// An image located at the given path/URL.
    Image(String),
}

impl Clone for EntityAvatar {
    fn clone(&self) -> (r: Self)
        ensures
            r == *self,
    {
        match self {
            EntityAvatar::Text(s) => EntityAvatar::Text(s.clone()),
            EntityAvatar::Image(s) => EntityAvatar::Image(s.clone()),
        }
    }
}

/// What the first extended grapheme cluster of a string is, as
/// unicode-segmentation computes it from the characters alone.
pub uninterp spec fn first_grapheme_of(s: Seq<char>) -> Seq<char>;

/// Relies on unicode_segmentation::UnicodeSegmentation::graphemes and the
/// first item of its iterator: the first extended grapheme cluster, a
/// non-empty prefix of the text, present exactly when the text is non-empty.
#[verifier::external_body]
fn first_grapheme(text: &str) -> (r: Option<String>)
    ensures
        r is Some <==> text@.len() > 0,
        r matches Some(g) ==> g@ == first_grapheme_of(text@) && 1 <= g@.len() <= text@.len()
            && g@ == text@.take(g@.len() as int),
{
    unicode_segmentation::UnicodeSegmentation::graphemes(text, true).next().map(|g| g.to_string())
}

impl EntityAvatar {
    /// Utility to construct an [`EntityAvatar::Text`] from the first
    /// grapheme of `text`, extracted using unicode segmentation. Yields
    /// nothing exactly when `text` is empty; otherwise the grapheme is a
    /// non-empty prefix of the text.
    pub fn from_first_grapheme(text: &str) -> (r: Option<Self>)
        ensures
            r is Some <==> text@.len() > 0,
            r matches Some(av) ==> av matches EntityAvatar::Text(g) && g@ == first_grapheme_of(
                text@,
            ) && 1 <= g@.len() <= text@.len() && g@ == text@.take(g@.len() as int),
    {
        match first_grapheme(text) {
            Some(g) => Some(EntityAvatar::Text(g)),
            None => None,
        }
    }
}

/// Identifies the entities that are recognized by this crate, mainly in a
/// chat.
#[derive(Debug, PartialEq, Eq, Hash, Default)]
pub enum EntityId {
    /// The user operating the application.
    User,
    /// The `system`/`developer` role many backends expect in the chat
    /// context.
    System,
    /// A bot: an automated assistant of any kind (model, agent, etc).
    Bot(BotId),
    /// Tool execution results and tool-related system messages.
    Tool,
    /// The application itself, for app specific information such as inline
    /// errors; not meant to be sent to bots.
    #[default]
    App,
}

impl Clone for EntityId {
    fn clone(&self) -> (r: Self)
        ensures
            r == *self,
    {
        match self {
            EntityId::User => EntityId::User,
            EntityId::System => EntityId::System,
            EntityId::Bot(id) => EntityId::Bot(id.clone()),
            EntityId::Tool => EntityId::Tool,
            EntityId::App => EntityId::App,
        }
    }
}

/// A capability a bot self-reports.
#[derive(Clone, Copy, Debug, PartialEq, Eq, Hash, Structural)]
pub enum BotCapability {
    /// Bot supports text input.
    TextInput,
    /// Bot can answer with text output.
    TextOutput,
    /// Bot supports starting a realtime audio call for conversation.
    Realtime,
    /// Bot accepts attachments as input.
    AttachmentInput,
    /// Bot can produce attachments as output.
    AttachmentOutput,
    /// Bot supports function calling (tools).
    FunctionCalling,
}

/// The set of capabilities that a bot supports.
#[derive(Clone, Copy, Debug, PartialEq, Eq, Structural, Default)]
pub struct BotCapabilities {
    text_input: bool,
    text_output: bool,
    realtime: bool,
    attachment_input: bool,
    attachment_output: bool,
    function_calling: bool,
}

impl BotCapabilities {
    /// Whether the set holds the given capability.
    pub closed spec fn spec_has(self, c: BotCapability) -> bool {
        match c {
            BotCapability::TextInput => self.text_input,
            BotCapability::TextOutput => self.text_output,
            BotCapability::Realtime => self.realtime,
            BotCapability::AttachmentInput => self.attachment_input,
            BotCapability::AttachmentOutput => self.attachment_output,
            BotCapability::FunctionCalling => self.function_calling,
        }
    }

    /// The empty capability set.
    pub fn new() -> (r: Self)
        ensures
            forall|c: BotCapability| !r.spec_has(c),
    {
        BotCapabilities {
            text_input: false,
            text_output: false,
            realtime: false,
            attachment_input: false,
            attachment_output: false,
            function_calling: false,
        }
    }

    /// The full capability set.
    pub fn all() -> (r: Self)
        ensures
            forall|c: BotCapability| r.spec_has(c),
    {
        BotCapabilities {
            text_input: true,
            text_output: true,
            realtime: true,
            attachment_input: true,
            attachment_output: true,
            function_calling: true,
        }
    }

    /// The set extended with one capability.
    pub fn with_capability(self, capability: BotCapability) -> (r: Self)
        ensures
            forall|c: BotCapability|
                #[trigger] r.spec_has(c) == (self.spec_has(c) || c == capability),
    {
        let mut r = self;
        r.add_capability(capability);
        r
    }

    /// Adds one capability to the set.
    pub fn add_capability(&mut self, capability: BotCapability)
        ensures
            forall|c: BotCapability|
                #[trigger] final(self).spec_has(c) == (old(self).spec_has(c) || c == capability),
    {
        match capability {
            BotCapability::TextInput => self.text_input = true,
            BotCapability::TextOutput => self.text_output = true,
            BotCapability::Realtime => self.realtime = true,
            BotCapability::AttachmentInput => self.attachment_input = true,
            BotCapability::AttachmentOutput => self.attachment_output = true,
            BotCapability::FunctionCalling => self.function_calling = true,
        }
    }

    /// The set extended with every capability in `capabilities`.
    pub fn with_capabilities(self, capabilities: &[BotCapability]) -> (r: Self)
        ensures
            forall|c: BotCapability|
                #[trigger] r.spec_has(c) == (self.spec_has(c) || capabilities@.contains(c)),
    {
        let mut r = self;
        r.add_capabilities(capabilities);
        r
    }

    /// Adds every capability in `capabilities` to the set.
    pub fn add_capabilities(&mut self, capabilities: &[BotCapability])
        ensures
            forall|c: BotCapability|
                #[trigger] final(self).spec_has(c) == (old(self).spec_has(c)
                    || capabilities@.contains(c)),
    {
        let mut k: usize = 0;
        while k < capabilities.len()
            invariant
                k <= capabilities@.len(),
                forall|c: BotCapability|
                    #[trigger] self.spec_has(c) == (old(self).spec_has(c)
                        || capabilities@.take(k as int).contains(c)),
            decreases capabilities@.len() - k,
        {
            let c = capabilities[k];
            self.add_capability(c);
            proof {
                broadcast use vstd::seq_lib::lemma_seq_contains_after_push;

                assert(capabilities@.take(k + 1) =~= capabilities@.take(k as int).push(
                    capabilities@[k as int],
                ));
            }
            k += 1;
        }
        proof {
            assert(capabilities@.take(capabilities@.len() as int) =~= capabilities@);
        }
    }

    /// Whether the set holds the given capability.
    pub fn has_capability(&self, capability: &BotCapability) -> (r: bool)
        ensures
            r == self.spec_has(*capability),
    {
        match capability {
            BotCapability::TextInput => self.text_input,
            BotCapability::TextOutput => self.text_output,
            BotCapability::Realtime => self.realtime,
            BotCapability::AttachmentInput => self.attachment_input,
            BotCapability::AttachmentOutput => self.attachment_output,
            BotCapability::FunctionCalling => self.function_calling,
        }
    }

    /// The capabilities in the set, each exactly once.
    pub fn iter(&self) -> (r: Vec<BotCapability>)
        ensures
            forall|c: BotCapability| #[trigger] r@.contains(c) == self.spec_has(c),
            r@.no_duplicates(),
    {
        broadcast use vstd::seq_lib::lemma_seq_contains_after_push;

        let mut r: Vec<BotCapability> = Vec::new();
        if self.text_input {
            r.push(BotCapability::TextInput);
        }
        if self.text_output {
            r.push(BotCapability::TextOutput);
        }
        if self.realtime {
            r.push(BotCapability::Realtime);
        }
        if self.attachment_input {
            r.push(BotCapability::AttachmentInput);
        }
        if self.attachment_output {
            r.push(BotCapability::AttachmentOutput);
        }
        if self.function_calling {
            r.push(BotCapability::FunctionCalling);
        }
        r
    }
}

/// A bot: an automated assistant of any kind (model, agent, etc), as its
/// provider reports it. Produced by adapters; the router only rewrites `id`
/// when re-exporting.
#[derive(Debug, PartialEq)]
pub struct Bot {
    pub id: BotId,
    pub name: String,
    pub avatar: EntityAvatar,
    pub capabilities: BotCapabilities,
}

impl Clone for Bot {
    fn clone(&self) -> (r: Self)
        ensures
            r == *self,
    {
        Bot {
            id: self.id.clone(),
            name: self.name.clone(),
            avatar: self.avatar.clone(),
            capabilities: self.capabilities,
        }
    }
}

/// The mathematical view of an [`EntityAvatar`].
pub enum AvatarView {
    Text(Seq<char>),
    Image(Seq<char>),
}

impl View for EntityAvatar {
    type V = AvatarView;

    open spec fn view(&self) -> AvatarView {
        match self {
            EntityAvatar::Text(s) => AvatarView::Text(s@),
            EntityAvatar::Image(s) => AvatarView::Image(s@),
        }
    }
}

/// The mathematical view of a [`Bot`] record.
pub struct BotView {
    pub id: Seq<char>,
    pub name: Seq<char>,
    pub avatar: AvatarView,
    pub capabilities: BotCapabilities,
}

impl View for Bot {
    type V = BotView;

    open spec fn view(&self) -> BotView {
        BotView { id: self.id@, name: self.name@, avatar: self.avatar@, capabilities: self.capabilities }
    }
}

} // verus!
