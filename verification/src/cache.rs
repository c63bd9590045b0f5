//! The external-lookup cache: one bundle of named fact slots per session,
//! each entry carrying the context it was computed for (its discriminator),
//! its payload, and the second it was recorded. Lookups honour per-slot
//! time-to-live windows and treat a discriminator mismatch as a miss. The
//! bundle is codified to and from tab-separated lines that round-trip every
//! field.

use vstd::prelude::*;
use crate::strutil::{
    split_char_spec, split_char, push_char, append_str, append_string, new_string, str_eq,
    string_eq_str,
};
use crate::numfmt::{dec_chars, parse_u64_spec, parse_u64, all_digits, dec_value, digit_val};

verus! {

/// One cached fact: the context it was computed for, its payload, and the
/// second (since the epoch) it was recorded.
pub struct CacheEntry {
    pub discriminator: String,
    pub payload: String,
    pub recorded_at: u64,
}

/// The named fact slots a session's cache holds: the open pull-request URL,
/// its check status, and the basic repository metadata bundle.
#[derive(Clone, Copy)]
pub enum CacheSlot {
    PrUrl,
    PrStatus,
    GitMeta,
}

/// A session's cache: one optional entry per named fact.
pub struct SessionCache {
    pub pr_url: Option<CacheEntry>,
    pub pr_status: Option<CacheEntry>,
    pub git_meta: Option<CacheEntry>,
}

/// The freshness window of each slot, in seconds: URL resolution changes
/// slowly, check status churns faster, and repository metadata is cheap to
/// refresh.
pub open spec fn spec_ttl(slot: CacheSlot) -> int {
    match slot {
        CacheSlot::PrUrl => 60,
        CacheSlot::PrStatus => 30,
        CacheSlot::GitMeta => 5,
    }
}

/// The freshness window of a slot, executably.
pub fn slot_ttl(slot: CacheSlot) -> (r: u64)
    ensures
        r as int == spec_ttl(slot),
{
    match slot {
        CacheSlot::PrUrl => 60,
        CacheSlot::PrStatus => 30,
        CacheSlot::GitMeta => 5,
    }
}

/// An entry is valid at `now` exactly when less than `ttl` seconds have
/// passed since it was recorded.
pub open spec fn spec_entry_valid(e: CacheEntry, ttl: int, now: int) -> bool {
    now - e.recorded_at < ttl
}

/// Whether an entry is still fresh at `now` under `ttl`.
pub fn entry_valid(e: &CacheEntry, ttl_seconds: u64, now: u64) -> (r: bool)
    ensures
        r == spec_entry_valid(*e, ttl_seconds as int, now as int),
{
    (now as u128) < (e.recorded_at as u128) + (ttl_seconds as u128)
}

/// An entry recorded at time `t` with time-to-live `s` is valid one second
/// before the deadline and invalid at it.
pub proof fn lemma_ttl_boundary(e: CacheEntry, s: int)
    ensures
        spec_entry_valid(e, s, e.recorded_at + s - 1),
        !spec_entry_valid(e, s, e.recorded_at + s),
{
}

impl SessionCache {
    /// The entry of the named slot.
    pub open spec fn spec_slot(self, slot: CacheSlot) -> Option<CacheEntry> {
        match slot {
            CacheSlot::PrUrl => self.pr_url,
            CacheSlot::PrStatus => self.pr_status,
            CacheSlot::GitMeta => self.git_meta,
        }
    }

    /// The payload a lookup yields: present exactly when the slot holds an
    /// entry recorded for the same discriminator that is still fresh.
    pub open spec fn spec_lookup(self, slot: CacheSlot, disc: Seq<char>, now: int) -> Option<
        Seq<char>,
    > {
        match self.spec_slot(slot) {
            None => None,
            Some(e) => if e.discriminator@ == disc && spec_entry_valid(e, spec_ttl(slot), now) {
                Some(e.payload@)
            } else {
                None
            },
        }
    }

    /// A cache with every slot empty.
    pub fn empty() -> (r: SessionCache)
        ensures
            r.pr_url is None,
            r.pr_status is None,
            r.git_meta is None,
    {
        SessionCache { pr_url: None, pr_status: None, git_meta: None }
    }

    /// Looks a fact up: its payload when the slot holds a fresh entry for
    /// this very context, a miss otherwise (a stale entry and an entry
    /// recorded for another context alike force a refetch).
    pub fn lookup(&self, slot: CacheSlot, disc: &str, now: u64) -> (r: Option<String>)
        ensures
            match (r, self.spec_lookup(slot, disc@, now as int)) {
                (Some(s), Some(t)) => s@ == t,
                (None, None) => true,
                _ => false,
            },
    {
        let entry = match slot {
            CacheSlot::PrUrl => &self.pr_url,
            CacheSlot::PrStatus => &self.pr_status,
            CacheSlot::GitMeta => &self.git_meta,
        };
        match entry {
            None => None,
            Some(e) => {
                if str_eq(e.discriminator.as_str(), disc) && entry_valid(e, slot_ttl(slot), now) {
                    Some(crate::strutil::to_owned_string(e.payload.as_str()))
                } else {
                    None
                }
            },
        }
    }

    /// Records a fact: overwrites the named slot with the new context,
    /// payload and time, leaving the other slots unchanged.
    pub fn store(&mut self, slot: CacheSlot, disc: &str, payload: &str, now: u64)
        ensures
            ({
                let e = final(self).spec_slot(slot);
                &&& e matches Some(e) && e.discriminator@ == disc@ && e.payload@ == payload@
                    && e.recorded_at == now
            }),
            !slots_equal(CacheSlot::PrUrl, slot) ==> final(self).pr_url == old(self).pr_url,
            !slots_equal(CacheSlot::PrStatus, slot) ==> final(self).pr_status == old(
                self,
            ).pr_status,
            !slots_equal(CacheSlot::GitMeta, slot) ==> final(self).git_meta == old(self).git_meta,
    {
        let e = CacheEntry {
            discriminator: crate::strutil::to_owned_string(disc),
            payload: crate::strutil::to_owned_string(payload),
            recorded_at: now,
        };
        match slot {
            CacheSlot::PrUrl => {
                self.pr_url = Some(e);
            },
            CacheSlot::PrStatus => {
                self.pr_status = Some(e);
            },
            CacheSlot::GitMeta => {
                self.git_meta = Some(e);
            },
        }
    }
}

/// Whether two slot names are the same slot.
pub open spec fn slots_equal(a: CacheSlot, b: CacheSlot) -> bool {
    match (a, b) {
        (CacheSlot::PrUrl, CacheSlot::PrUrl) => true,
        (CacheSlot::PrStatus, CacheSlot::PrStatus) => true,
        (CacheSlot::GitMeta, CacheSlot::GitMeta) => true,
        _ => false,
    }
}

/// A lookup against a slot recorded for another context always misses,
/// however fresh the entry is.
pub proof fn lemma_discriminator_mismatch(
    c: SessionCache,
    slot: CacheSlot,
    disc: Seq<char>,
    now: int,
)
    requires
        match c.spec_slot(slot) {
            Some(e) => e.discriminator@ != disc,
            None => true,
        },
    ensures
        c.spec_lookup(slot, disc, now) is None,
{
}

// ---- the line codec ----

/// One character escaped for the codec: backslash, tab and newline become
/// two-character escapes, everything else stands as itself.
pub open spec fn esc_char(c: char) -> Seq<char> {
    if c == '\\' {
        seq!['\\', '\\']
    } else if c == '\t' {
        seq!['\\', 't']
    } else if c == '\n' {
        seq!['\\', 'n']
    } else {
        seq![c]
    }
}

/// A string escaped character by character.
pub open spec fn esc(s: Seq<char>) -> Seq<char>
    decreases s.len(),
{
    if s.len() == 0 {
        Seq::<char>::empty()
    } else {
        esc_char(s[0]) + esc(s.drop_first())
    }
}

/// Escaping distributes over concatenation.
proof fn lemma_esc_concat(a: Seq<char>, b: Seq<char>)
    ensures
        esc(a + b) == esc(a) + esc(b),
    decreases a.len(),
{
    if a.len() == 0 {
        assert(a + b =~= b);
        assert(esc(a) + esc(b) =~= esc(b));
    } else {
        lemma_esc_concat(a.drop_first(), b);
        assert((a + b).drop_first() =~= a.drop_first() + b);
        assert((a + b)[0] == a[0]);
        assert(esc_char(a[0]) + (esc(a.drop_first()) + esc(b)) =~= (esc_char(a[0]) + esc(
            a.drop_first(),
        )) + esc(b));
    }
}

/// An escaped string never holds a bare tab or newline.
proof fn lemma_esc_clean(s: Seq<char>)
    ensures
        forall|i: int| 0 <= i < esc(s).len() ==> #[trigger] esc(s)[i] != '\t' && esc(s)[i] != '\n',
    decreases s.len(),
{
    if s.len() > 0 {
        lemma_esc_clean(s.drop_first());
        let head = esc_char(s[0]);
        assert forall|i: int| 0 <= i < esc(s).len() implies #[trigger] esc(s)[i] != '\t' && esc(
            s,
        )[i] != '\n' by {
            if i < head.len() {
                assert(esc(s)[i] == head[i]);
            } else {
                assert(esc(s)[i] == esc(s.drop_first())[i - head.len()]);
            }
        }
    }
}

/// Appends the escaped form of `piece` to `out`.
fn push_escaped(out: &mut String, piece: &str)
    ensures
        final(out)@ == old(out)@ + esc(piece@),
{
    let len = piece.unicode_len();
    let mut i: usize = 0;
    proof {
        assert(out@ + esc(piece@.take(0)) =~= out@);
    }
    while i < len
        invariant
            i <= len,
            len == piece@.len(),
            out@ == old(out)@ + esc(piece@.take(i as int)),
        decreases len - i,
    {
        let c = piece.get_char(i);
        proof {
            assert(piece@.take(i + 1) =~= piece@.take(i as int) + seq![piece@[i as int]]);
            lemma_esc_concat(piece@.take(i as int), seq![piece@[i as int]]);
            assert(seq![piece@[i as int]].drop_first() =~= Seq::<char>::empty());
            assert(esc(seq![piece@[i as int]]) == esc_char(piece@[i as int]) + esc(
                Seq::<char>::empty(),
            ));
            assert(esc_char(piece@[i as int]) + Seq::<char>::empty() =~= esc_char(
                piece@[i as int],
            ));
        }
        if c == '\\' {
            push_char(out, '\\');
            push_char(out, '\\');
        } else if c == '\t' {
            push_char(out, '\\');
            push_char(out, 't');
        } else if c == '\n' {
            push_char(out, '\\');
            push_char(out, 'n');
        } else {
            push_char(out, c);
        }
        proof {
            assert(out@ =~= old(out)@ + esc(piece@.take(i + 1)));
        }
        i += 1;
    }
    proof {
        assert(piece@.take(len as int) =~= piece@);
    }
}

/// The string an escaped form names, or nothing on a dangling or unknown
/// escape.
pub open spec fn unesc(s: Seq<char>) -> Option<Seq<char>>
    decreases s.len(),
{
    if s.len() == 0 {
        Some(Seq::<char>::empty())
    } else if s[0] == '\\' {
        if s.len() < 2 {
            None
        } else {
            let c = if s[1] == '\\' {
                Some('\\')
            } else if s[1] == 't' {
                Some('\t')
            } else if s[1] == 'n' {
                Some('\n')
            } else {
                None
            };
            match c {
                None => None,
                Some(c) => match unesc(s.skip(2)) {
                    None => None,
                    Some(r) => Some(seq![c] + r),
                },
            }
        }
    } else {
        match unesc(s.drop_first()) {
            None => None,
            Some(r) => Some(seq![s[0]] + r),
        }
    }
}

/// Escaping and unescaping are inverse.
pub proof fn lemma_unesc_esc(s: Seq<char>)
    ensures
        unesc(esc(s)) == Some(s),
    decreases s.len(),
{
    if s.len() == 0 {
    } else {
        lemma_unesc_esc(s.drop_first());
        let e = esc(s);
        assert(e == esc_char(s[0]) + esc(s.drop_first()));
        if s[0] == '\\' || s[0] == '\t' || s[0] == '\n' {
            assert(e[0] == '\\');
            assert(e.len() >= 2);
            assert(e.skip(2) =~= esc(s.drop_first()));
            assert(seq![s[0]] + s.drop_first() =~= s);
        } else {
            assert(e[0] == s[0]);
            assert(e.drop_first() =~= esc(s.drop_first()));
            assert(seq![s[0]] + s.drop_first() =~= s);
        }
    }
}

/// Unescapes a field, or reports the malformed escape.
fn unescape(piece: &str) -> (r: Option<String>)
    ensures
        match (r, unesc(piece@)) {
            (Some(s), Some(t)) => s@ == t,
            (None, None) => true,
            _ => false,
        },
{
    let len = piece.unicode_len();
    let mut out = new_string();
    let mut i: usize = 0;
    proof {
        assert(piece@.skip(0) =~= piece@);
    }
    while i < len
        invariant
            i <= len,
            len == piece@.len(),
            match unesc(piece@) {
                Some(t) => match unesc(piece@.skip(i as int)) {
                    Some(rest) => t == out@ + rest,
                    None => false,
                },
                None => unesc(piece@.skip(i as int)) is None,
            },
        decreases len - i,
    {
        let ghost tail = piece@.skip(i as int);
        let c = piece.get_char(i);
        proof {
            assert(tail[0] == piece@[i as int]);
            assert(tail.drop_first() =~= piece@.skip(i + 1));
        }
        if c == '\\' {
            if i + 1 == len {
                return None;
            }
            let d = piece.get_char(i + 1);
            proof {
                assert(tail.len() >= 2);
                assert(tail[1] == piece@[i + 1]);
                assert(tail.skip(2) =~= piece@.skip(i + 2));
            }
            let u = if d == '\\' {
                '\\'
            } else if d == 't' {
                '\t'
            } else if d == 'n' {
                '\n'
            } else {
                return None;
            };
            let ghost outg = out@;
            push_char(&mut out, u);
            proof {
                match unesc(piece@.skip(i + 2)) {
                    Some(rest) => {
                        assert(outg + (seq![u] + rest) =~= out@ + rest);
                    },
                    None => {},
                }
            }
            i += 2;
        } else {
            let ghost outg = out@;
            push_char(&mut out, c);
            proof {
                match unesc(piece@.skip(i + 1)) {
                    Some(rest) => {
                        assert(outg + (seq![c] + rest) =~= out@ + rest);
                    },
                    None => {},
                }
            }
            i += 1;
        }
    }
    proof {
        assert(piece@.skip(len as int) =~= Seq::<char>::empty());
        match unesc(piece@) {
            Some(t) => {
                assert(t =~= out@);
            },
            None => {},
        }
    }
    Some(out)
}

/// The ghost model of one entry: its discriminator, payload, and recorded
/// second.
pub type EntryModel = (Seq<char>, Seq<char>, u64);

/// The ghost model of a whole cache: its three slots in order.
pub type CacheModel = (Option<EntryModel>, Option<EntryModel>, Option<EntryModel>);

/// The model of one entry.
pub open spec fn entry_model(e: CacheEntry) -> EntryModel {
    (e.discriminator@, e.payload@, e.recorded_at)
}

/// The model of one optional entry.
pub open spec fn slot_model(o: Option<CacheEntry>) -> Option<EntryModel> {
    match o {
        Some(e) => Some(entry_model(e)),
        None => None,
    }
}

/// The model of a whole cache.
pub open spec fn cache_model(c: SessionCache) -> CacheModel {
    (slot_model(c.pr_url), slot_model(c.pr_status), slot_model(c.git_meta))
}

/// The model of a cache with every slot empty.
pub open spec fn empty_model() -> CacheModel {
    (None, None, None)
}

/// The name under which each slot is codified.
pub open spec fn slot_name(slot: CacheSlot) -> Seq<char> {
    match slot {
        CacheSlot::PrUrl => "pr_url"@,
        CacheSlot::PrStatus => "pr_status"@,
        CacheSlot::GitMeta => "git_meta"@,
    }
}

/// One codified line: the slot name, the recorded second, the escaped
/// discriminator and the escaped payload, tab-separated.
pub open spec fn enc_line(slot: CacheSlot, e: EntryModel) -> Seq<char> {
    slot_name(slot) + seq!['\t'] + dec_chars(e.2 as int) + seq!['\t'] + esc(e.0) + seq!['\t']
        + esc(e.1)
}

/// The codified lines of a cache model: one line per present slot, in slot
/// order.
pub open spec fn encode_spec(m: CacheModel) -> Seq<Seq<char>> {
    (match m.0 {
        Some(e) => seq![enc_line(CacheSlot::PrUrl, e)],
        None => Seq::<Seq<char>>::empty(),
    }) + (match m.1 {
        Some(e) => seq![enc_line(CacheSlot::PrStatus, e)],
        None => Seq::<Seq<char>>::empty(),
    }) + (match m.2 {
        Some(e) => seq![enc_line(CacheSlot::GitMeta, e)],
        None => Seq::<Seq<char>>::empty(),
    })
}

/// The slot a codified name denotes.
pub open spec fn decode_slot_name(s: Seq<char>) -> Option<CacheSlot> {
    if s == "pr_url"@ {
        Some(CacheSlot::PrUrl)
    } else if s == "pr_status"@ {
        Some(CacheSlot::PrStatus)
    } else if s == "git_meta"@ {
        Some(CacheSlot::GitMeta)
    } else {
        None
    }
}

/// The slot and entry one codified line names, or nothing when the line is
/// malformed in any way.
pub open spec fn decode_line_spec(l: Seq<char>) -> Option<(CacheSlot, EntryModel)> {
    let parts = split_char_spec(l, '\t');
    if parts.len() != 4 {
        None
    } else {
        match decode_slot_name(parts[0]) {
            None => None,
            Some(slot) => match parse_u64_spec(parts[1]) {
                None => None,
                Some(ts) => match unesc(parts[2]) {
                    None => None,
                    Some(d) => match unesc(parts[3]) {
                        None => None,
                        Some(p) => Some((slot, (d, p, ts))),
                    },
                },
            },
        }
    }
}

/// A model with one slot overwritten.
pub open spec fn model_store(m: CacheModel, slot: CacheSlot, e: EntryModel) -> CacheModel {
    match slot {
        CacheSlot::PrUrl => (Some(e), m.1, m.2),
        CacheSlot::PrStatus => (m.0, Some(e), m.2),
        CacheSlot::GitMeta => (m.0, m.1, Some(e)),
    }
}

/// The model a sequence of codified lines names, applying lines in order
/// (the last write to a slot wins); nothing when any line is malformed.
pub open spec fn decode_spec(lines: Seq<Seq<char>>) -> Option<CacheModel>
    decreases lines.len(),
{
    if lines.len() == 0 {
        Some(empty_model())
    } else {
        match decode_spec(lines.drop_last()) {
            None => None,
            Some(m) => match decode_line_spec(lines.last()) {
                None => None,
                Some((slot, e)) => Some(model_store(m, slot, e)),
            },
        }
    }
}

/// Codifies one present slot as a line.
fn encode_line(slot: CacheSlot, e: &CacheEntry) -> (r: String)
    ensures
        r@ == enc_line(slot, entry_model(*e)),
{
    let mut out = new_string();
    match slot {
        CacheSlot::PrUrl => append_str(&mut out, "pr_url"),
        CacheSlot::PrStatus => append_str(&mut out, "pr_status"),
        CacheSlot::GitMeta => append_str(&mut out, "git_meta"),
    }
    push_char(&mut out, '\t');
    crate::numfmt::push_dec_u128(&mut out, e.recorded_at as u128);
    push_char(&mut out, '\t');
    push_escaped(&mut out, e.discriminator.as_str());
    push_char(&mut out, '\t');
    push_escaped(&mut out, e.payload.as_str());
    proof {
        assert(out@ =~= enc_line(slot, entry_model(*e)));
    }
    out
}

impl SessionCache {
    /// Codifies the cache as tab-separated lines, one per present slot.
    pub fn encode(&self) -> (r: Vec<String>)
        ensures
            crate::strutil::views_of(r@) == encode_spec(cache_model(*self)),
    {
        let mut out: Vec<String> = Vec::new();
        match &self.pr_url {
            Some(e) => {
                out.push(encode_line(CacheSlot::PrUrl, e));
            },
            None => {},
        }
        match &self.pr_status {
            Some(e) => {
                out.push(encode_line(CacheSlot::PrStatus, e));
            },
            None => {},
        }
        match &self.git_meta {
            Some(e) => {
                out.push(encode_line(CacheSlot::GitMeta, e));
            },
            None => {},
        }
        proof {
            assert(crate::strutil::views_of(out@) =~= encode_spec(cache_model(*self)));
        }
        out
    }

    /// Decodes codified lines back into a cache; any malformed line yields
    /// the empty cache, never an error.
    pub fn decode(lines: &Vec<String>) -> (r: SessionCache)
        ensures
            match decode_spec(lines.deep_view()) {
                Some(m) => cache_model(r) == m,
                None => cache_model(r) == empty_model(),
            },
    {
        let ghost deep = lines.deep_view();
        let mut c = SessionCache::empty();
        let mut i: usize = 0;
        proof {
            assert(deep.take(0) =~= Seq::<Seq<char>>::empty());
        }
        while i < lines.len()
            invariant
                i <= lines@.len(),
                deep == lines.deep_view(),
                decode_spec(deep.take(i as int)) == Some(cache_model(c)),
            decreases lines@.len() - i,
        {
            proof {
                assert(deep.take(i + 1).drop_last() =~= deep.take(i as int));
                assert(deep.take(i + 1).last() == deep[i as int]);
                assert(deep[i as int] == lines@[i as int]@);
            }
            let parts = split_char(lines[i].as_str(), '\t');
            proof {
                assert(parts@.len() == crate::strutil::views_of(parts@).len());
            }
            if parts.len() != 4 {
                proof {
                    lemma_decode_none_prefix(deep, i + 1);
                }
                return SessionCache::empty();
            }
            proof {
                assert(parts@[0]@ == crate::strutil::views_of(parts@)[0]);
                assert(parts@[1]@ == crate::strutil::views_of(parts@)[1]);
                assert(parts@[2]@ == crate::strutil::views_of(parts@)[2]);
                assert(parts@[3]@ == crate::strutil::views_of(parts@)[3]);
            }
            let slot = if string_eq_str(&parts[0], "pr_url") {
                CacheSlot::PrUrl
            } else if string_eq_str(&parts[0], "pr_status") {
                CacheSlot::PrStatus
            } else if string_eq_str(&parts[0], "git_meta") {
                CacheSlot::GitMeta
            } else {
                proof {
                    lemma_decode_none_prefix(deep, i + 1);
                }
                return SessionCache::empty();
            };
            let ts = match parse_u64(parts[1].as_str()) {
                Some(ts) => ts,
                None => {
                    proof {
                        lemma_decode_none_prefix(deep, i + 1);
                    }
                    return SessionCache::empty();
                },
            };
            let d = match unescape(parts[2].as_str()) {
                Some(d) => d,
                None => {
                    proof {
                        lemma_decode_none_prefix(deep, i + 1);
                    }
                    return SessionCache::empty();
                },
            };
            let p = match unescape(parts[3].as_str()) {
                Some(p) => p,
                None => {
                    proof {
                        lemma_decode_none_prefix(deep, i + 1);
                    }
                    return SessionCache::empty();
                },
            };
            c.store(slot, d.as_str(), p.as_str(), ts);
            i += 1;
        }
        proof {
            assert(deep.take(lines@.len() as int) =~= deep);
        }
        c
    }
}

/// Once a prefix of the lines is malformed, the whole sequence is.
proof fn lemma_decode_none_prefix(lines: Seq<Seq<char>>, i: int)
    requires
        0 <= i <= lines.len(),
        decode_spec(lines.take(i)) is None,
    ensures
        decode_spec(lines) is None,
    decreases lines.len() - i,
{
    if i < lines.len() {
        assert(lines.take(i + 1).drop_last() =~= lines.take(i));
        lemma_decode_none_prefix(lines, i + 1);
    } else {
        assert(lines.take(i) =~= lines);
    }
}

/// Decoding one more line folds the line's slot into the model.
proof fn lemma_decode_push(lines: Seq<Seq<char>>, l: Seq<char>)
    ensures
        decode_spec(lines.push(l)) == (match (decode_spec(lines), decode_line_spec(l)) {
            (Some(m), Some((slot, e))) => Some(model_store(m, slot, e)),
            (Some(m), None) => None::<CacheModel>,
            (None, _) => None::<CacheModel>,
        }),
{
    assert(lines.push(l).drop_last() =~= lines);
    assert(lines.push(l).last() == l);
}

/// The codified slot names hold no tab and denote their own slots.
proof fn lemma_slot_names()
    ensures
        forall|slot: CacheSlot, i: int|
            0 <= i < slot_name(slot).len() ==> #[trigger] slot_name(slot)[i] != '\t',
        forall|slot: CacheSlot| decode_slot_name(#[trigger] slot_name(slot)) == Some(slot),
{
    reveal_strlit("pr_url");
    reveal_strlit("pr_status");
    reveal_strlit("git_meta");
    assert("pr_url"@ =~= seq!['p', 'r', '_', 'u', 'r', 'l']);
    assert("pr_status"@ =~= seq!['p', 'r', '_', 's', 't', 'a', 't', 'u', 's']);
    assert("git_meta"@ =~= seq!['g', 'i', 't', '_', 'm', 'e', 't', 'a']);
    assert forall|slot: CacheSlot| decode_slot_name(#[trigger] slot_name(slot)) == Some(slot) by {
        match slot {
            CacheSlot::PrUrl => {},
            CacheSlot::PrStatus => {
                assert("pr_status"@ != "pr_url"@);
            },
            CacheSlot::GitMeta => {
                assert("git_meta"@ != "pr_url"@);
                assert("git_meta"@ != "pr_status"@);
            },
        }
    }
}

/// Decoding a codified line yields the slot and entry it was made from.
proof fn lemma_decode_enc_line(slot: CacheSlot, e: EntryModel)
    ensures
        decode_line_spec(enc_line(slot, e)) == Some((slot, e)),
{
    lemma_slot_names();
    let name = slot_name(slot);
    let ts = dec_chars(e.2 as int);
    let d = esc(e.0);
    let p = esc(e.1);
    crate::numfmt::lemma_dec_chars_digits(e.2 as int);
    assert(forall|i: int| 0 <= i < ts.len() ==> #[trigger] ts[i] != '\t') by {
        assert(digit_val('\t') == -1);
    }
    lemma_esc_clean(e.0);
    lemma_esc_clean(e.1);
    let line = enc_line(slot, e);
    let tail2 = ts + seq!['\t'] + (d + seq!['\t'] + p);
    assert(line =~= name + seq!['\t'] + tail2);
    crate::strutil::lemma_split_prefix(name, tail2, '\t');
    assert(tail2 =~= ts + seq!['\t'] + (d + seq!['\t'] + p));
    crate::strutil::lemma_split_prefix(ts, d + seq!['\t'] + p, '\t');
    crate::strutil::lemma_split_prefix(d, p, '\t');
    crate::strutil::lemma_split_no_sep(p, '\t');
    let parts = split_char_spec(line, '\t');
    assert(parts =~= seq![name, ts, d, p]);
    crate::numfmt::lemma_parse_dec_chars(e.2);
    lemma_unesc_esc(e.0);
    lemma_unesc_esc(e.1);
    assert(decode_line_spec(line) == Some((slot, (e.0, e.1, e.2))));
    assert((e.0, e.1, e.2) == e);
}

/// Codifying a cache model and decoding the lines yields the very same
/// model: every entry's discriminator, payload and recorded second
/// round-trips.
pub proof fn lemma_codec_round_trip(m: CacheModel)
    ensures
        decode_spec(encode_spec(m)) == Some(m),
{
    let l0 = match m.0 {
        Some(e) => seq![enc_line(CacheSlot::PrUrl, e)],
        None => Seq::<Seq<char>>::empty(),
    };
    let l1 = match m.1 {
        Some(e) => seq![enc_line(CacheSlot::PrStatus, e)],
        None => Seq::<Seq<char>>::empty(),
    };
    let l2 = match m.2 {
        Some(e) => seq![enc_line(CacheSlot::GitMeta, e)],
        None => Seq::<Seq<char>>::empty(),
    };
    let empty = Seq::<Seq<char>>::empty();
    let after0 = match m.0 {
        Some(e) => empty.push(enc_line(CacheSlot::PrUrl, e)),
        None => empty,
    };
    let after1 = match m.1 {
        Some(e) => after0.push(enc_line(CacheSlot::PrStatus, e)),
        None => after0,
    };
    let after2 = match m.2 {
        Some(e) => after1.push(enc_line(CacheSlot::GitMeta, e)),
        None => after1,
    };
    assert(encode_spec(m) =~= after2);
    assert(decode_spec(empty) == Some(empty_model()));
    let m0 = (m.0, None::<EntryModel>, None::<EntryModel>);
    let m1 = (m.0, m.1, None::<EntryModel>);
    assert(decode_spec(after0) == Some(m0)) by {
        match m.0 {
            Some(e) => {
                lemma_decode_enc_line(CacheSlot::PrUrl, e);
                lemma_decode_push(empty, enc_line(CacheSlot::PrUrl, e));
            },
            None => {},
        }
    }
    assert(decode_spec(after1) == Some(m1)) by {
        match m.1 {
            Some(e) => {
                lemma_decode_enc_line(CacheSlot::PrStatus, e);
                lemma_decode_push(after0, enc_line(CacheSlot::PrStatus, e));
            },
            None => {},
        }
    }
    assert(decode_spec(after2) == Some(m)) by {
        match m.2 {
            Some(e) => {
                lemma_decode_enc_line(CacheSlot::GitMeta, e);
                lemma_decode_push(after1, enc_line(CacheSlot::GitMeta, e));
            },
            None => {},
        }
    }
}

} // verus!
