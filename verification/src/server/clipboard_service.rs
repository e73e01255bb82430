//! Clipboard service helpers: bounded, boundary-preserving UTF-8 decoding of clipboard text.
use vstd::prelude::*;
use vstd::utf8::*;
use crate::text::utf8_to_string;

verus! {

/// Maximum number of characters of clipboard text injected as Wayland keyboard input.
pub const WAYLAND_CLIPBOARD_INPUT_MAX_TEXT_CHARS: usize = 1024;

/// Maximum number of clipboard bytes inspected when deciding whether to skip a sync.
pub const WAYLAND_CLIPBOARD_SKIP_CHECK_MAX_UTF8_BYTES: usize = WAYLAND_CLIPBOARD_INPUT_MAX_TEXT_CHARS
    * 4;

/// Number of bytes of the UTF-8 sequence announced by a leading byte (0 for a byte that
/// cannot start a well-formed sequence), per the well-formed byte sequence table of Unicode.
pub open spec fn lead_width(b0: u8) -> nat {
    if b0 <= 0x7f {
        1
    } else if 0xc2 <= b0 <= 0xdf {
        2
    } else if 0xe0 <= b0 <= 0xef {
        3
    } else if 0xf0 <= b0 <= 0xf4 {
        4
    } else {
        0
    }
}

/// Allowed range of the second byte of a multi-byte sequence, which depends on the leading byte.
pub open spec fn second_byte_ok(b0: u8, b1: u8) -> bool {
    if b0 == 0xe0 {
        0xa0 <= b1 <= 0xbf
    } else if b0 == 0xed {
        0x80 <= b1 <= 0x9f
    } else if b0 == 0xf0 {
        0x90 <= b1 <= 0xbf
    } else if b0 == 0xf4 {
        0x80 <= b1 <= 0x8f
    } else {
        0x80 <= b1 <= 0xbf
    }
}

/// Byte `k` (counted from the leading byte at 0) of the sequence starting at `s[0]` is acceptable.
pub open spec fn tail_byte_ok(s: Seq<u8>, k: int) -> bool {
    if k == 1 {
        second_byte_ok(s[0], s[1])
    } else {
        is_continuation_byte(s[k])
    }
}

/// The first `n` bytes of `s` after the leading byte are all acceptable.
pub open spec fn tail_ok_upto(s: Seq<u8>, n: int) -> bool {
    forall|k: int| 1 <= k < n ==> #[trigger] tail_byte_ok(s, k)
}

/// `s` starts with a complete, well-formed encoding of one scalar.
pub open spec fn starts_with_scalar(s: Seq<u8>) -> bool {
    &&& s.len() > 0
    &&& lead_width(s[0]) != 0
    &&& lead_width(s[0]) <= s.len()
    &&& tail_ok_upto(s, lead_width(s[0]) as int)
}

/// `s` is a non-empty proper prefix of a well-formed scalar encoding: the input ended
/// in the middle of a character.
pub open spec fn truncated_scalar(s: Seq<u8>) -> bool {
    &&& s.len() > 0
    &&& lead_width(s[0]) > s.len()
    &&& tail_ok_upto(s, s.len() as int)
}

/// Length of the longest prefix of `s` made of complete well-formed scalars, decoded greedily
/// from the front.
pub open spec fn valid_up_to(s: Seq<u8>) -> nat
    decreases s.len(),
{
    if starts_with_scalar(s) {
        let w = lead_width(s[0]);
        w + valid_up_to(s.subrange(w as int, s.len() as int))
    } else {
        0
    }
}

/// What decoding the bytes as a prefix of UTF-8 text yields: the text decoded up to the last
/// complete character when the bytes are valid or merely cut in the middle of a character, and
/// nothing when they hold an invalid sequence.
pub open spec fn utf8_prefix_text(p: Seq<u8>) -> Option<Seq<char>> {
    let v = valid_up_to(p);
    if v == p.len() || truncated_scalar(p.subrange(v as int, p.len() as int)) {
        Some(decode_utf8(p.subrange(0, v as int)))
    } else {
        None
    }
}

/// The bytes inspected by `decode_utf8_prefix`: at most the skip-check limit.
pub open spec fn inspected_prefix(bytes: Seq<u8>) -> Seq<u8> {
    if bytes.len() <= WAYLAND_CLIPBOARD_SKIP_CHECK_MAX_UTF8_BYTES {
        bytes
    } else {
        bytes.subrange(0, WAYLAND_CLIPBOARD_SKIP_CHECK_MAX_UTF8_BYTES as int)
    }
}

proof fn lemma_width2(b0: u8, b1: u8)
    by (bit_vector)
    requires
        0xc0 <= b0 <= 0xdf,
        0x80 <= b1 <= 0xbf,
    ensures
        (0x80 <= codepoint_width_2(b0, b1)) <==> (0xc2 <= b0),
        !(0xD800 <= codepoint_width_2(b0, b1) <= 0xDFFF),
{
}

proof fn lemma_width3(b0: u8, b1: u8, b2: u8)
    by (bit_vector)
    requires
        0xe0 <= b0 <= 0xef,
        0x80 <= b1 <= 0xbf,
        0x80 <= b2 <= 0xbf,
    ensures
        ((0x800 <= codepoint_width_3(b0, b1, b2)) && !(0xD800 <= codepoint_width_3(b0, b1, b2)
            <= 0xDFFF)) <==> ((b0 == 0xe0 ==> 0xa0 <= b1) && (b0 == 0xed ==> b1 <= 0x9f)),
{
}

proof fn lemma_width4(b0: u8, b1: u8, b2: u8, b3: u8)
    by (bit_vector)
    requires
        0xf0 <= b0 <= 0xf7,
        0x80 <= b1 <= 0xbf,
        0x80 <= b2 <= 0xbf,
        0x80 <= b3 <= 0xbf,
    ensures
        (0x10000 <= codepoint_width_4(b0, b1, b2, b3) <= 0x10ffff) <==> (b0 <= 0xf4 && (b0
            == 0xf0 ==> 0x90 <= b1) && (b0 == 0xf4 ==> b1 <= 0x8f)),
        0x10000 <= codepoint_width_4(b0, b1, b2, b3) ==> !(0xD800 <= codepoint_width_4(
            b0,
            b1,
            b2,
            b3,
        ) <= 0xDFFF),
{
}

/// The byte-range description of a well-formed first scalar agrees with the codepoint-based one.
pub proof fn lemma_starts_with_scalar(s: Seq<u8>)
    requires
        s.len() > 0,
    ensures
        starts_with_scalar(s) <==> valid_first_scalar(s),
        starts_with_scalar(s) ==> length_of_first_scalar(s) == lead_width(s[0]),
{
    let b0 = s[0];
    if s.len() >= 2 {
        assert(tail_byte_ok(s, 1) == second_byte_ok(b0, s[1]));
    }
    if s.len() >= 3 {
        assert(tail_byte_ok(s, 2) == is_continuation_byte(s[2]));
    }
    if s.len() >= 4 {
        assert(tail_byte_ok(s, 3) == is_continuation_byte(s[3]));
    }
    if 0xc0 <= b0 <= 0xdf && s.len() >= 2 && is_continuation_byte(s[1]) {
        lemma_width2(b0, s[1]);
    }
    if 0xe0 <= b0 <= 0xef && s.len() >= 3 && is_continuation_byte(s[1]) && is_continuation_byte(
        s[2],
    ) {
        lemma_width3(b0, s[1], s[2]);
    }
    if 0xf0 <= b0 <= 0xf7 && s.len() >= 4 && is_continuation_byte(s[1]) && is_continuation_byte(
        s[2],
    ) && is_continuation_byte(s[3]) {
        lemma_width4(b0, s[1], s[2], s[3]);
    }
}


/// The greedily decoded prefix is valid UTF-8.
pub proof fn lemma_valid_up_to_is_valid(s: Seq<u8>)
    ensures
        valid_up_to(s) <= s.len(),
        valid_utf8(s.subrange(0, valid_up_to(s) as int)),
    decreases s.len(),
{
    if starts_with_scalar(s) {
        let w = lead_width(s[0]) as int;
        let t = s.subrange(w, s.len() as int);
        lemma_valid_up_to_is_valid(t);
        let vt = valid_up_to(t) as int;
        let x = s.subrange(0, w + vt);
        assert(x.subrange(0, w) =~= s.subrange(0, w));
        assert(x[0] == s[0]);
        assert forall|k: int| 1 <= k < w implies #[trigger] tail_byte_ok(x, k) by {
            assert(tail_byte_ok(s, k));
        }
        lemma_starts_with_scalar(x);
        assert(pop_first_scalar(x) =~= t.subrange(0, vt));
    } else {
        assert(s.subrange(0, 0) =~= Seq::<u8>::empty());
    }
}

/// No prefix longer than `valid_up_to(s)` is valid UTF-8: it is the largest index up to which
/// the bytes are valid.
pub proof fn lemma_valid_up_to_is_maximal(s: Seq<u8>, j: int)
    requires
        valid_up_to(s) < j <= s.len(),
    ensures
        !valid_utf8(s.subrange(0, j)),
    decreases s.len(),
{
    let x = s.subrange(0, j);
    if starts_with_scalar(s) {
        let w = lead_width(s[0]) as int;
        let t = s.subrange(w, s.len() as int);
        lemma_valid_up_to_is_maximal(t, j - w);
        assert(x[0] == s[0]);
        assert forall|k: int| 1 <= k < w implies #[trigger] tail_byte_ok(x, k) by {
            assert(tail_byte_ok(s, k));
        }
        lemma_starts_with_scalar(x);
        assert(pop_first_scalar(x) =~= t.subrange(0, j - w));
    } else {
        lemma_starts_with_scalar(x);
        if valid_utf8(x) {
            assert(starts_with_scalar(x));
            let w = lead_width(x[0]) as int;
            assert(x[0] == s[0]);
            assert forall|k: int| 1 <= k < w implies #[trigger] tail_byte_ok(s, k) by {
                assert(tail_byte_ok(x, k));
            }
            assert(starts_with_scalar(s));
        }
    }
}

/// Valid UTF-8 is decoded up to its end.
pub proof fn lemma_valid_utf8_fully_decoded(s: Seq<u8>)
    requires
        valid_utf8(s),
    ensures
        valid_up_to(s) == s.len(),
    decreases s.len(),
{
    if s.len() > 0 {
        lemma_starts_with_scalar(s);
        let w = lead_width(s[0]) as int;
        assert(pop_first_scalar(s) =~= s.subrange(w, s.len() as int));
        lemma_valid_utf8_fully_decoded(s.subrange(w, s.len() as int));
    }
}

/// Smallest acceptable second byte after the leading byte `b0`.
pub open spec fn min_second_byte(b0: u8) -> u8 {
    if b0 == 0xe0 {
        0xa0
    } else if b0 == 0xf0 {
        0x90
    } else {
        0x80
    }
}

/// A truncated character is exactly what can still be completed into a well-formed one by
/// more input; any other incomplete-or-invalid start can never become well-formed.
pub proof fn lemma_truncated_iff_completable(r: Seq<u8>)
    requires
        r.len() > 0,
        !starts_with_scalar(r),
    ensures
        truncated_scalar(r) <==> exists|ext: Seq<u8>| #[trigger] starts_with_scalar(r + ext),
{
    let b0 = r[0];
    let w = lead_width(b0) as int;
    if truncated_scalar(r) {
        let ext = Seq::new(
            (w - r.len()) as nat,
            |i: int| if r.len() + i == 1 { min_second_byte(b0) } else { 0x80u8 },
        );
        let x = r + ext;
        assert(x[0] == b0);
        assert forall|k: int| 1 <= k < w implies #[trigger] tail_byte_ok(x, k) by {
            if k < r.len() {
                assert(tail_byte_ok(r, k));
                assert(x[k] == r[k]);
            } else {
                assert(x[k] == ext[k - r.len()]);
            }
        }
        assert(starts_with_scalar(x));
    } else {
        assert forall|ext: Seq<u8>| !#[trigger] starts_with_scalar(r + ext) by {
            let x = r + ext;
            assert(x[0] == b0);
            if starts_with_scalar(x) {
                if w <= r.len() {
                    assert forall|k: int| 1 <= k < w implies #[trigger] tail_byte_ok(r, k) by {
                        assert(tail_byte_ok(x, k));
                        assert(x[k] == r[k]);
                        if k == 1 {
                            assert(x[1] == r[1]);
                        }
                    }
                    assert(starts_with_scalar(r));
                } else {
                    assert forall|k: int| 1 <= k < r.len() implies #[trigger] tail_byte_ok(
                        r,
                        k,
                    ) by {
                        assert(tail_byte_ok(x, k));
                        assert(x[k] == r[k]);
                        if k == 1 {
                            assert(x[1] == r[1]);
                        }
                    }
                    assert(truncated_scalar(r));
                }
            }
        }
    }
}

/// Whenever decoding succeeds, the text re-encodes to exactly the longest valid prefix of the
/// inspected bytes, so nothing but a trailing cut-off character is dropped.
pub proof fn lemma_decode_utf8_prefix_keeps_boundary(bytes: Seq<u8>)
    ensures
        ({
            let p = inspected_prefix(bytes);
            utf8_prefix_text(p) matches Some(t) ==> {
                &&& encode_utf8(t) == p.subrange(0, valid_up_to(p) as int)
                &&& encode_utf8(t).len() <= WAYLAND_CLIPBOARD_SKIP_CHECK_MAX_UTF8_BYTES
                &&& forall|j: int|
                    valid_up_to(p) < j <= p.len() ==> !valid_utf8(#[trigger] p.subrange(0, j))
            }
        }),
{
    let p = inspected_prefix(bytes);
    lemma_valid_up_to_is_valid(p);
    vstd::utf8::decode_utf8_encode_utf8(p.subrange(0, valid_up_to(p) as int));
    assert forall|j: int| valid_up_to(p) < j <= p.len() implies !valid_utf8(
        #[trigger] p.subrange(0, j),
    ) by {
        lemma_valid_up_to_is_maximal(p, j);
    }
}

/// Valid UTF-8 that fits within the limit is returned whole.
pub proof fn lemma_decode_utf8_prefix_valid_whole(bytes: Seq<u8>)
    requires
        valid_utf8(bytes),
        bytes.len() <= WAYLAND_CLIPBOARD_SKIP_CHECK_MAX_UTF8_BYTES,
    ensures
        utf8_prefix_text(inspected_prefix(bytes)) == Some(decode_utf8(bytes)),
{
    lemma_valid_utf8_fully_decoded(bytes);
    assert(bytes.subrange(0, bytes.len() as int) =~= bytes);
}

fn utf8_lead_width(b0: u8) -> (w: usize)
    ensures
        w == lead_width(b0),
{
    if b0 <= 0x7f {
        1
    } else if 0xc2 <= b0 && b0 <= 0xdf {
        2
    } else if 0xe0 <= b0 && b0 <= 0xef {
        3
    } else if 0xf0 <= b0 && b0 <= 0xf4 {
        4
    } else {
        0
    }
}

fn utf8_second_byte_ok(b0: u8, b1: u8) -> (ok: bool)
    ensures
        ok == second_byte_ok(b0, b1),
{
    if b0 == 0xe0 {
        0xa0 <= b1 && b1 <= 0xbf
    } else if b0 == 0xed {
        0x80 <= b1 && b1 <= 0x9f
    } else if b0 == 0xf0 {
        0x90 <= b1 && b1 <= 0xbf
    } else if b0 == 0xf4 {
        0x80 <= b1 && b1 <= 0x8f
    } else {
        0x80 <= b1 && b1 <= 0xbf
    }
}

/// Scans `bytes[..end]` as UTF-8: returns the length of its valid prefix and whether the bytes
/// after that prefix are a character cut off by the end of the input.
fn scan_utf8(bytes: &[u8], end: usize) -> (res: (usize, bool))
    requires
        end <= bytes@.len(),
    ensures
        ({
            let p = bytes@.subrange(0, end as int);
            &&& res.0 == valid_up_to(p)
            &&& res.0 <= end
            &&& res.1 == (res.0 < end && truncated_scalar(p.subrange(res.0 as int, end as int)))
        }),
{
    let ghost p = bytes@.subrange(0, end as int);
    let mut i: usize = 0;
    assert(p.subrange(0, end as int) =~= p);
    while i < end
        invariant
            end <= bytes@.len(),
            p == bytes@.subrange(0, end as int),
            i <= end,
            valid_up_to(p) == i + valid_up_to(p.subrange(i as int, end as int)),
        decreases end - i,
    {
        let ghost rest = p.subrange(i as int, end as int);
        let b0 = bytes[i];
        assert(rest[0] == b0);
        let w = utf8_lead_width(b0);
        if w == 0 {
            return (i, false);
        }
        let mut k: usize = 1;
        while k < w
            invariant
                end <= bytes@.len(),
                p == bytes@.subrange(0, end as int),
                rest == p.subrange(i as int, end as int),
                i < end,
                w == lead_width(rest[0]),
                rest[0] == b0,
                1 <= k <= w,
                w <= 4,
                i + k <= end,
                tail_ok_upto(rest, k as int),
                valid_up_to(p) == i + valid_up_to(rest),
            decreases w - k,
        {
            if i + k >= end {
                assert(rest.len() == k);
                assert(!starts_with_scalar(rest));
                assert(truncated_scalar(rest));
                return (i, true);
            }
            let b = bytes[i + k];
            assert(rest[k as int] == b);
            let ok = if k == 1 {
                utf8_second_byte_ok(b0, b)
            } else {
                0x80 <= b && b <= 0xbf
            };
            if !ok {
                assert(!tail_byte_ok(rest, k as int));
                assert(!starts_with_scalar(rest));
                assert(!truncated_scalar(rest));
                return (i, false);
            }
            assert(tail_byte_ok(rest, k as int));
            k = k + 1;
        }
        assert(starts_with_scalar(rest));
        assert(rest.subrange(w as int, rest.len() as int) =~= p.subrange(
            (i + w) as int,
            end as int,
        ));
        i = i + w;
    }
    assert(p.subrange(i as int, end as int).len() == 0);
    (i, false)
}

/// Decodes at most the first `WAYLAND_CLIPBOARD_SKIP_CHECK_MAX_UTF8_BYTES` bytes as UTF-8 text.
/// A character cut off by that limit or by the end of the input is dropped; an invalid
/// sequence makes the whole decoding fail.
pub fn decode_utf8_prefix(bytes: &[u8]) -> (r: Option<String>)
    ensures
        match utf8_prefix_text(inspected_prefix(bytes@)) {
            Some(t) => r matches Some(s) && s@ == t,
            None => r is None,
        },
{
    let end = if bytes.len() < WAYLAND_CLIPBOARD_SKIP_CHECK_MAX_UTF8_BYTES {
        bytes.len()
    } else {
        WAYLAND_CLIPBOARD_SKIP_CHECK_MAX_UTF8_BYTES
    };
    let ghost p = bytes@.subrange(0, end as int);
    assert(p =~= inspected_prefix(bytes@));
    let (v, truncated) = scan_utf8(bytes, end);
    if v < end && !truncated {
        return None;
    }
    let prefix = &bytes[0..v];
    proof {
        lemma_valid_up_to_is_valid(p);
        assert(prefix@ =~= p.subrange(0, v as int));
    }
    utf8_to_string(prefix)
}


/// A clipboard entry of a clipboard message.
pub struct ClipboardItem {
    /// The entry holds text (rather than an image or a file list).
    pub is_text: bool,
    /// The content is compressed.
    pub compress: bool,
    /// The content bytes as sent.
    pub content: Vec<u8>,
}

/// The text of a clipboard entry, when it is text: the content (or, for compressed content,
/// `inflated`, the content decompressed) decoded by `decode_utf8_prefix`.
pub fn decode_text_clipboard(item: &ClipboardItem, inflated: &[u8]) -> (r: Option<String>)
    ensures
        !item.is_text ==> r is None,
        item.is_text ==> {
            let bytes = if item.compress {
                inflated@
            } else {
                item.content@
            };
            match utf8_prefix_text(inspected_prefix(bytes)) {
                Some(t) => r matches Some(s) && s@ == t,
                None => r is None,
            }
        },
{
    if !item.is_text {
        return None;
    }
    if item.compress {
        return decode_utf8_prefix(inflated);
    }
    decode_utf8_prefix(item.content.as_slice())
}

/// A clipboard message echoes recent Wayland keyboard input: not on X11, and one of its text
/// entries was recently typed.
pub open spec fn skip_sync(is_x11: bool, recent_input: Seq<bool>) -> bool {
    !is_x11 && exists|i: int| 0 <= i < recent_input.len() && recent_input[i]
}

/// Whether a clipboard message is not synced because it echoes recent Wayland keyboard input:
/// never on X11; otherwise when any of its text entries was recently typed
/// (`recent_input[i]` tells it for entry `i`).
pub fn should_skip_wayland_clipboard_sync(is_x11: bool, recent_input: &[bool]) -> (r: bool)
    ensures
        r == skip_sync(is_x11, recent_input@),
{
    if is_x11 {
        return false;
    }
    let mut i: usize = 0;
    while i < recent_input.len()
        invariant
            !is_x11,
            i <= recent_input@.len(),
            forall|j: int| 0 <= j < i ==> !recent_input@[j],
        decreases recent_input@.len() - i,
    {
        if recent_input[i] {
            assert(recent_input@[i as int]);
            return true;
        }
        i = i + 1;
    }
    false
}

/// A clipboard service: the name it is registered under and whether its run loop is active.
pub struct ClipboardService {
    name: String,
    running: bool,
}

impl ClipboardService {
    pub closed spec fn name_view(&self) -> Seq<char> {
        self.name@
    }

    pub closed spec fn is_running(&self) -> bool {
        self.running
    }

    /// The name the service is registered under.
    pub fn name(&self) -> (r: &String)
        ensures
            r@ == self.name_view(),
    {
        &self.name
    }

    /// The run loop starts; it is active exactly when the service is still enabled.
    pub fn on_run_start(&mut self, service_ok: bool)
        ensures
            final(self).name_view() == old(self).name_view(),
            final(self).is_running() == service_ok,
    {
        self.running = service_ok;
    }

    /// The run loop has ended.
    pub fn on_run_end(&mut self)
        ensures
            final(self).name_view() == old(self).name_view(),
            !final(self).is_running(),
    {
        self.running = false;
    }
}

/// Creates the clipboard service registered under `name`; its run loop is not active yet.
pub fn new(name: String) -> (r: ClipboardService)
    ensures
        r.name_view() == name@,
        !r.is_running(),
{
    ClipboardService { name, running: false }
}

/// Whether the clipboard service's run loop is active.
pub fn is_clipboard_service_ok(svc: &ClipboardService) -> (r: bool)
    ensures
        r == svc.is_running(),
{
    svc.running
}

/// What the clipboard listener reported.
pub enum ListenerEvent {
    /// The clipboard changed.
    Next,
    /// The listener stopped.
    Stop,
    /// The listener stopped with an error.
    StopWithError(String),
    /// Nothing happened within the polling interval.
    Timeout,
    /// The listener is gone.
    Disconnected,
}

/// What the clipboard service loop does after a listener event.
pub enum RunStep {
    /// Read the clipboard and send it unless it is to be skipped.
    SendClipboard,
    /// Keep waiting.
    Wait,
    /// Leave the loop and unsubscribe; the run ends without error.
    Finish,
    /// Leave the loop with the listener's error.
    Fail(String),
}

/// The service loop's reaction to a listener event.
pub fn run_step(event: ListenerEvent) -> (r: RunStep)
    ensures
        match event {
            ListenerEvent::Next => r is SendClipboard,
            ListenerEvent::Stop => r is Finish,
            ListenerEvent::StopWithError(e) => r matches RunStep::Fail(f) && f@ == e@,
            ListenerEvent::Timeout => r is Wait,
            ListenerEvent::Disconnected => r is Finish,
        },
{
    match event {
        ListenerEvent::Next => RunStep::SendClipboard,
        ListenerEvent::Stop => RunStep::Finish,
        ListenerEvent::StopWithError(e) => RunStep::Fail(e),
        ListenerEvent::Timeout => RunStep::Wait,
        ListenerEvent::Disconnected => RunStep::Finish,
    }
}


/// The message to send after a clipboard change: nothing when the clipboard gave none, nothing
/// when the message echoes recent Wayland keyboard input (`recent_input[i]` tells whether the
/// text of its entry `i`, as `clipboard_texts` gives it, was recently typed), else the message.
pub fn get_clipboard_msg<M>(peeked: Option<M>, is_x11: bool, recent_input: &[bool]) -> (r: Option<M>)
    ensures
        r == (match peeked {
            None => None,
            Some(m) => if skip_sync(is_x11, recent_input@) {
                None
            } else {
                Some(m)
            },
        }),
{
    match peeked {
        None => None,
        Some(m) => if should_skip_wayland_clipboard_sync(is_x11, recent_input) {
            None
        } else {
            Some(m)
        },
    }
}

/// The texts of the entries of a clipboard message, each decoded by `decode_text_clipboard`
/// (`inflated[i]` is entry `i`'s content decompressed, used when it is compressed).
pub fn clipboard_texts(items: &Vec<ClipboardItem>, inflated: &Vec<Vec<u8>>) -> (r: Vec<Option<String>>)
    requires
        items@.len() == inflated@.len(),
    ensures
        r@.len() == items@.len(),
        forall|i: int|
            0 <= i < items@.len() ==> {
                let it = #[trigger] items@[i];
                let bytes = if it.compress {
                    inflated@[i]@
                } else {
                    it.content@
                };
                if !it.is_text {
                    r@[i] is None
                } else {
                    match utf8_prefix_text(inspected_prefix(bytes)) {
                        Some(t) => r@[i] matches Some(s) && s@ == t,
                        None => r@[i] is None,
                    }
                }
            },
{
    let mut r: Vec<Option<String>> = Vec::new();
    let mut i: usize = 0;
    while i < items.len()
        invariant
            items@.len() == inflated@.len(),
            i <= items@.len(),
            r@.len() == i,
            forall|k: int|
                0 <= k < i ==> {
                    let it = #[trigger] items@[k];
                    let bytes = if it.compress {
                        inflated@[k]@
                    } else {
                        it.content@
                    };
                    if !it.is_text {
                        r@[k] is None
                    } else {
                        match utf8_prefix_text(inspected_prefix(bytes)) {
                            Some(t) => r@[k] matches Some(s) && s@ == t,
                            None => r@[k] is None,
                        }
                    }
                },
        decreases items@.len() - i,
    {
        let t = decode_text_clipboard(&items[i], inflated[i].as_slice());
        r.push(t);
        i = i + 1;
    }
    r
}

} // verus!
