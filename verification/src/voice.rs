//! Voice naming and the voice registry.
//!
//! A voice's public name derives from its model-config filename: the part
//! before the first dot, with a leading accent-code prefix stripped when the
//! filename carries one. The prefix comparison is case- and
//! separator-insensitive on the filename side (ASCII upper case folds down,
//! underscores count as dashes); the accent code itself is taken as the config
//! wrote it. The registry holds every discovered voice with its accent code,
//! dataset label, the index of the discovery input it came from, and whether a
//! synthesizer has been constructed and cached for it.
use vstd::prelude::*;

verus! {

use crate::bytes::{bytes_eq, subrange_vec, copy_vec, lit, ascii_lit, push_all, find_byte};
use vstd::string::is_ascii;

/// Case and separator normalization of one filename byte: ASCII upper case
/// folds to lower case, an underscore counts as a dash.
pub open spec fn norm(b: u8) -> u8 {
    if 0x41 <= b <= 0x5a {
        (b + 0x20) as u8
    } else if b == 0x5f {
        0x2d
    } else {
        b
    }
}

/// The whole filename, normalized byte by byte.
pub open spec fn norm_seq(s: Seq<u8>) -> Seq<u8> {
    Seq::new(s.len(), |i: int| norm(s[i]))
}

/// The filename part before the first dot.
pub open spec fn spec_file_prefix(s: Seq<u8>) -> Seq<u8>
    decreases s.len(),
{
    if s.len() == 0 {
        Seq::empty()
    } else if s[0] == 0x2e {
        Seq::empty()
    } else {
        seq![s[0]] + spec_file_prefix(s.drop_first())
    }
}

/// True when the filename starts with the accent code followed by a dash or
/// an underscore, compared under normalization.
pub open spec fn strips_accent(name: Seq<u8>, accent: Seq<u8>) -> bool {
    &&& name.len() > accent.len()
    &&& norm_seq(name).take(accent.len() as int) == accent
    &&& (name[accent.len() as int] == 0x2d || name[accent.len() as int] == 0x5f)
}

/// The public voice name for a filename stem: the stem with its accent prefix
/// and the following separator stripped when present, otherwise the stem
/// unchanged.
pub open spec fn spec_derive_name(stem: Seq<u8>, accent: Seq<u8>) -> Seq<u8> {
    if strips_accent(stem, accent) {
        stem.skip(accent.len() + 1 as int)
    } else {
        stem
    }
}

proof fn lemma_file_prefix_take(s: Seq<u8>, i: int)
    requires
        0 <= i <= s.len(),
        forall|j: int| 0 <= j < i ==> s[j] != 0x2e,
        i == s.len() || s[i] == 0x2e,
    ensures
        spec_file_prefix(s) == s.take(i),
    decreases s.len(),
{
    if s.len() == 0 {
        assert(spec_file_prefix(s) =~= s.take(i));
    } else if s[0] == 0x2e {
        assert(i == 0);
        assert(spec_file_prefix(s) =~= s.take(0));
    } else {
        assert(i >= 1);
        lemma_file_prefix_take(s.drop_first(), i - 1);
        assert(s.drop_first().take(i - 1) =~= s.take(i).drop_first());
        assert(spec_file_prefix(s) =~= s.take(i));
    }
}

/// The filename stem: everything before the first dot.
pub fn file_prefix(name: &Vec<u8>) -> (r: Vec<u8>)
    ensures
        r@ == spec_file_prefix(name@),
{
    let n = name.len();
    let mut i: usize = 0;
    while i < n
        invariant
            n == name@.len(),
            i <= n,
            forall|j: int| 0 <= j < i ==> name@[j] != 0x2e,
        decreases n - i,
    {
        if name[i] == 0x2e {
            proof {
                lemma_file_prefix_take(name@, i as int);
            }
            return subrange_vec(name, 0, i);
        }
        i += 1;
    }
    proof {
        lemma_file_prefix_take(name@, n as int);
        assert(name@.take(n as int) =~= name@);
    }
    subrange_vec(name, 0, n)
}

/// Normalizes one byte as the prefix comparison does.
pub fn norm_byte(b: u8) -> (r: u8)
    ensures
        r == norm(b),
{
    if 0x41 <= b && b <= 0x5a {
        b + 0x20
    } else if b == 0x5f {
        0x2d
    } else {
        b
    }
}

/// Derives the public voice name from a filename stem and the accent code of
/// its config: the accent prefix and its separator are stripped when the stem
/// carries them, case- and separator-insensitively; otherwise the stem stays
/// as it is.
pub fn derive_name(stem: &Vec<u8>, accent: &Vec<u8>) -> (r: Vec<u8>)
    ensures
        r@ == spec_derive_name(stem@, accent@),
{
    let alen = accent.len();
    if stem.len() <= alen {
        proof {
            assert(!strips_accent(stem@, accent@));
            assert(stem@.subrange(0, stem@.len() as int) =~= stem@);
        }
        return subrange_vec(stem, 0, stem.len());
    }
    let mut i: usize = 0;
    while i < alen
        invariant
            alen == accent@.len() < stem@.len(),
            i <= alen,
            forall|j: int| 0 <= j < i ==> norm_seq(stem@)[j] == accent@[j],
        decreases alen - i,
    {
        if norm_byte(stem[i]) != accent[i] {
            proof {
                assert(norm_seq(stem@).take(alen as int) != accent@) by {
                    assert(norm_seq(stem@).take(alen as int)[i as int] != accent@[i as int]);
                }
                assert(stem@.subrange(0, stem@.len() as int) =~= stem@);
            }
            return subrange_vec(stem, 0, stem.len());
        }
        i += 1;
    }
    let sep = stem[alen];
    if sep == 0x2d || sep == 0x5f {
        proof {
            assert(norm_seq(stem@).take(alen as int) =~= accent@);
            assert(strips_accent(stem@, accent@));
            assert(stem@.subrange(alen + 1 as int, stem@.len() as int) =~= stem@.skip(
                alen + 1 as int,
            ));
        }
        subrange_vec(stem, alen + 1, stem.len())
    } else {
        proof {
            assert(!strips_accent(stem@, accent@));
            assert(stem@.subrange(0, stem@.len() as int) =~= stem@);
        }
        subrange_vec(stem, 0, stem.len())
    }
}

/// ASCII lower case folds up, for the display region code.
pub open spec fn upper(b: u8) -> u8 {
    if 0x61 <= b <= 0x7a {
        (b - 0x20) as u8
    } else {
        b
    }
}

/// The whole region code, upper-cased byte by byte.
pub open spec fn upper_seq(s: Seq<u8>) -> Seq<u8> {
    Seq::new(s.len(), |i: int| upper(s[i]))
}

/// The position of the first dash in an accent code, if any.
pub open spec fn first_dash(s: Seq<u8>) -> Option<int>
    decreases s.len(),
{
    if s.len() == 0 {
        None
    } else if s[0] == 0x2d {
        Some(0)
    } else {
        match first_dash(s.drop_first()) {
            Some(i) => Some(i + 1),
            None => None,
        }
    }
}

proof fn lemma_first_dash_at(s: Seq<u8>, i: int)
    requires
        0 <= i <= s.len(),
        forall|j: int| 0 <= j < i ==> s[j] != 0x2d,
        i == s.len() || s[i] == 0x2d,
    ensures
        if i == s.len() {
            first_dash(s) is None
        } else {
            first_dash(s) == Some(i)
        },
    decreases s.len(),
{
    if s.len() == 0 {
    } else if s[0] == 0x2d {
        assert(i == 0);
    } else {
        assert(i >= 1);
        lemma_first_dash_at(s.drop_first(), i - 1);
    }
}

/// The display language tag for an accent code `lang-region`: the language,
/// an underscore, and the region upper-cased — a shape chosen so that generic
/// protocol consumers do not special-case it away. An accent code without a
/// dash has no tag.
pub open spec fn spec_lang_tag(accent: Seq<u8>) -> Option<Seq<u8>> {
    match first_dash(accent) {
        Some(i) => Some(accent.take(i) + seq![0x5fu8] + upper_seq(accent.skip(i + 1))),
        None => None,
    }
}

/// Builds the display language tag of an accent code, if it is well formed.
pub fn lang_tag(accent: &Vec<u8>) -> (r: Option<Vec<u8>>)
    ensures
        match r {
            Some(t) => Some(t@) == spec_lang_tag(accent@),
            None => spec_lang_tag(accent@) is None,
        },
{
    match find_byte(accent, 0x2d) {
        Some(i) => {
            proof {
                lemma_first_dash_at(accent@, i as int);
            }
            let mut t = subrange_vec(accent, 0, i);
            t.push(0x5f);
            let n = accent.len();
            let mut k: usize = i + 1;
            while k < n
                invariant
                    n == accent@.len(),
                    i + 1 <= k <= n,
                    i < n,
                    t@ == accent@.take(i as int) + seq![0x5fu8] + upper_seq(
                        accent@.skip(i + 1 as int),
                    ).take(k - i - 1),
                decreases n - k,
            {
                let b = accent[k];
                let ub = if 0x61 <= b && b <= 0x7a {
                    b - 0x20
                } else {
                    b
                };
                t.push(ub);
                proof {
                    assert(t@ =~= accent@.take(i as int) + seq![0x5fu8] + upper_seq(
                        accent@.skip(i + 1 as int),
                    ).take(k + 1 - i - 1));
                }
                k += 1;
            }
            proof {
                assert(upper_seq(accent@.skip(i + 1 as int)).take(n - i - 1) =~= upper_seq(
                    accent@.skip(i + 1 as int),
                ));
                assert(t@ =~= accent@.take(i as int) + seq![0x5fu8] + upper_seq(
                    accent@.skip(i + 1 as int),
                ));
            }
            Some(t)
        },
        None => {
            proof {
                lemma_first_dash_at(accent@, accent@.len() as int);
            }
            None
        },
    }
}

/// One discovery input: a model-config filename with the accent code and
/// dataset label its config carries.
pub struct VoiceInput {
    pub filename: Vec<u8>,
    pub accent: Vec<u8>,
    pub dataset: Option<Vec<u8>>,
}

/// The mathematical shadow of a discovery input.
pub struct VoiceInputV {
    pub filename: Seq<u8>,
    pub accent: Seq<u8>,
    pub dataset: Option<Seq<u8>>,
}

impl View for VoiceInput {
    type V = VoiceInputV;

    open spec fn view(&self) -> VoiceInputV {
        VoiceInputV {
            filename: self.filename@,
            accent: self.accent@,
            dataset: match self.dataset {
                Some(d) => Some(d@),
                None => None,
            },
        }
    }
}

/// One registered voice: its public name, the accent code and dataset label
/// for listing, the discovery input it came from (whose config path the host
/// program keeps), and whether its synthesizer is already constructed.
pub struct VoiceEntry {
    pub name: Vec<u8>,
    pub accent: Vec<u8>,
    pub dataset: Option<Vec<u8>>,
    pub source: usize,
    pub built: bool,
}

/// The mathematical shadow of a registry entry.
pub struct VoiceEntryV {
    pub name: Seq<u8>,
    pub accent: Seq<u8>,
    pub dataset: Option<Seq<u8>>,
    pub source: int,
    pub built: bool,
}

impl View for VoiceEntry {
    type V = VoiceEntryV;

    open spec fn view(&self) -> VoiceEntryV {
        VoiceEntryV {
            name: self.name@,
            accent: self.accent@,
            dataset: match self.dataset {
                Some(d) => Some(d@),
                None => None,
            },
            source: self.source as int,
            built: self.built,
        }
    }
}

/// The entry a discovery input at position `src` produces: name derived from
/// the filename stem, nothing built yet.
pub open spec fn entry_of(inp: VoiceInputV, src: int) -> VoiceEntryV {
    VoiceEntryV {
        name: spec_derive_name(spec_file_prefix(inp.filename), inp.accent),
        accent: inp.accent,
        dataset: inp.dataset,
        source: src,
        built: false,
    }
}

/// The first entry with the given name, if any.
pub open spec fn find_name(es: Seq<VoiceEntryV>, name: Seq<u8>) -> Option<int>
    decreases es.len(),
{
    if es.len() == 0 {
        None
    } else if es[0].name == name {
        Some(0)
    } else {
        match find_name(es.drop_first(), name) {
            Some(i) => Some(i + 1),
            None => None,
        }
    }
}

/// What `find_name` returns: the first index bearing the name, or nothing
/// when no entry bears it.
pub proof fn lemma_find_name_props(es: Seq<VoiceEntryV>, name: Seq<u8>)
    ensures
        match find_name(es, name) {
            Some(i) => 0 <= i < es.len() && es[i].name == name && (forall|j: int|
                0 <= j < i ==> es[j].name != name),
            None => forall|j: int| 0 <= j < es.len() ==> es[j].name != name,
        },
    decreases es.len(),
{
    if es.len() > 0 && es[0].name != name {
        lemma_find_name_props(es.drop_first(), name);
        match find_name(es.drop_first(), name) {
            Some(i) => {
                assert(es[i + 1].name == es.drop_first()[i].name);
                assert forall|j: int| 0 <= j < i + 1 implies es[j].name != name by {
                    if j > 0 {
                        assert(es[j].name == es.drop_first()[j - 1].name);
                    }
                }
            },
            None => {
                assert forall|j: int| 0 <= j < es.len() implies es[j].name != name by {
                    if j > 0 {
                        assert(es[j].name == es.drop_first()[j - 1].name);
                    }
                }
            },
        }
    }
}

proof fn lemma_find_name_at(es: Seq<VoiceEntryV>, name: Seq<u8>, i: int)
    requires
        0 <= i <= es.len(),
        forall|j: int| 0 <= j < i ==> es[j].name != name,
        i == es.len() || es[i].name == name,
    ensures
        if i == es.len() {
            find_name(es, name) is None
        } else {
            find_name(es, name) == Some(i)
        },
    decreases es.len(),
{
    if es.len() == 0 {
    } else if es[0].name == name {
        assert(i == 0);
    } else {
        assert(i >= 1);
        lemma_find_name_at(es.drop_first(), name, i - 1);
    }
}

/// The registry the discovery inputs produce, processed in order: a repeated
/// name replaces the earlier entry in place, a fresh name appends.
pub open spec fn spec_discover(ins: Seq<VoiceInputV>) -> Seq<VoiceEntryV>
    decreases ins.len(),
{
    if ins.len() == 0 {
        Seq::empty()
    } else {
        let prev = spec_discover(ins.drop_last());
        let e = entry_of(ins.last(), ins.len() - 1);
        match find_name(prev, e.name) {
            Some(j) => prev.update(j, e),
            None => prev.push(e),
        }
    }
}

/// The views of a sequence of discovery inputs.
pub open spec fn input_views(ins: Seq<VoiceInput>) -> Seq<VoiceInputV> {
    Seq::new(ins.len(), |i: int| ins[i]@)
}

/// The voice registry.
pub struct Registry {
    pub entries: Vec<VoiceEntry>,
}

impl View for Registry {
    type V = Seq<VoiceEntryV>;

    open spec fn view(&self) -> Seq<VoiceEntryV> {
        Seq::new(self.entries@.len(), |i: int| self.entries@[i]@)
    }
}

impl Registry {
    /// Finds the first entry with the given name.
    pub fn find_by_name(&self, name: &Vec<u8>) -> (r: Option<usize>)
        ensures
            match r {
                Some(i) => find_name(self@, name@) == Some(i as int) && i < self@.len(),
                None => find_name(self@, name@) is None,
            },
    {
        let n = self.entries.len();
        let mut i: usize = 0;
        while i < n
            invariant
                n == self@.len(),
                i <= n,
                forall|j: int| 0 <= j < i ==> self@[j].name != name@,
            decreases n - i,
        {
            if bytes_eq(&self.entries[i].name, name) {
                proof {
                    lemma_find_name_at(self@, name@, i as int);
                }
                return Some(i);
            }
            i += 1;
        }
        proof {
            lemma_find_name_at(self@, name@, n as int);
        }
        None
    }

    /// Enumerates the registry from the discovery inputs. Every entry starts
    /// with no synthesizer built.
    pub fn discover(inputs: &Vec<VoiceInput>) -> (r: Registry)
        ensures
            r@ == spec_discover(input_views(inputs@)),
    {
        let n = inputs.len();
        let mut reg = Registry { entries: Vec::new() };
        proof {
            assert(reg@ =~= spec_discover(input_views(inputs@.take(0))));
        }
        let mut i: usize = 0;
        while i < n
            invariant
                n == inputs@.len(),
                i <= n,
                reg@ == spec_discover(input_views(inputs@.take(i as int))),
            decreases n - i,
        {
            let inp = &inputs[i];
            let stem = file_prefix(&inp.filename);
            let name = derive_name(&stem, &inp.accent);
            let entry = VoiceEntry {
                name,
                accent: copy_vec(&inp.accent),
                dataset: match &inp.dataset {
                    Some(d) => Some(copy_vec(d)),
                    None => None,
                },
                source: i,
                built: false,
            };
            proof {
                assert(entry@ == entry_of(inputs@[i as int]@, i as int));
            }
            let pos = reg.find_by_name(&entry.name);
            match pos {
                Some(j) => {
                    reg.entries.set(j, entry);
                },
                None => {
                    reg.entries.push(entry);
                },
            }
            proof {
                let tv = input_views(inputs@.take(i + 1 as int));
                assert(tv.drop_last() =~= input_views(inputs@.take(i as int)));
                assert(tv.last() == inputs@[i as int]@);
                match find_name(spec_discover(tv.drop_last()), entry_of(tv.last(), i as int).name) {
                    Some(j) => {
                        assert(reg@ =~= spec_discover(tv.drop_last()).update(
                            j,
                            entry_of(tv.last(), i as int),
                        ));
                    },
                    None => {
                        assert(reg@ =~= spec_discover(tv.drop_last()).push(
                            entry_of(tv.last(), i as int),
                        ));
                    },
                }
            }
            i += 1;
        }
        proof {
            assert(inputs@.take(n as int) =~= inputs@);
        }
        reg
    }

    /// Marks the voice at `i` as having its synthesizer constructed and cached.
    pub fn set_built(&mut self, i: usize, built: bool)
        requires
            i < old(self)@.len(),
        ensures
            final (self)@ == old(self)@.update(i as int, VoiceEntryV { built, ..old(self)@[i as int] }),
    {
        let e = &self.entries[i];
        let newe = VoiceEntry {
            name: copy_vec(&e.name),
            accent: copy_vec(&e.accent),
            dataset: match &e.dataset {
                Some(d) => Some(copy_vec(d)),
                None => None,
            },
            source: e.source,
            built,
        };
        self.entries.set(i, newe);
        proof {
            assert(self@ =~= old(self)@.update(
                i as int,
                VoiceEntryV { built, ..old(self)@[i as int] },
            ));
        }
    }
}

/// Rediscovery against the same or a changed set of inputs: the fresh
/// enumeration, with the built flag carried over from any existing entry of
/// the same name.
pub open spec fn spec_rediscover(old_es: Seq<VoiceEntryV>, ins: Seq<VoiceInputV>) -> Seq<
    VoiceEntryV,
> {
    let d = spec_discover(ins);
    Seq::new(
        d.len(),
        |i: int|
            VoiceEntryV {
                built: match find_name(old_es, d[i].name) {
                    Some(j) => old_es[j].built,
                    None => false,
                },
                ..d[i]
            },
    )
}

impl Registry {
    /// Re-runs discovery, keeping the cached-synthesizer mark of every voice
    /// whose name persists.
    pub fn rediscover(&mut self, inputs: &Vec<VoiceInput>)
        ensures
            final (self)@ == spec_rediscover(old(self)@, input_views(inputs@)),
    {
        let fresh = Registry::discover(inputs);
        let n = fresh.entries.len();
        let mut out: Vec<VoiceEntry> = Vec::new();
        let mut i: usize = 0;
        while i < n
            invariant
                n == fresh@.len(),
                fresh@ == spec_discover(input_views(inputs@)),
                i <= n,
                out@.len() == i,
                forall|j: int|
                    0 <= j < i ==> #[trigger] out@[j]@ == spec_rediscover(
                        old(self)@,
                        input_views(inputs@),
                    )[j],
                self@ == old(self)@,
            decreases n - i,
        {
            let e = &fresh.entries[i];
            let built = match self.find_by_name(&e.name) {
                Some(j) => self.entries[j].built,
                None => false,
            };
            let newe = VoiceEntry {
                name: copy_vec(&e.name),
                accent: copy_vec(&e.accent),
                dataset: match &e.dataset {
                    Some(d) => Some(copy_vec(d)),
                    None => None,
                },
                source: e.source,
                built,
            };
            out.push(newe);
            i += 1;
        }
        self.entries = out;
        proof {
            assert(self@ =~= spec_rediscover(old(self)@, input_views(inputs@)));
        }
    }
}

/// The voice-list line of one entry: its name, display language tag and
/// dataset label, tab-separated, as a continuation line — or nothing when the
/// accent code is malformed and the voice cannot be listed.
pub open spec fn spec_list_line(e: VoiceEntryV) -> Option<Seq<u8>> {
    match spec_lang_tag(e.accent) {
        Some(t) => Some(
            lit("200-"@) + e.name + seq![0x09u8] + t + seq![0x09u8] + (match e.dataset {
                Some(d) => d,
                None => lit("none"@),
            }),
        ),
        None => None,
    }
}

/// The voice-list lines of a registry, one per listable entry, in order.
pub open spec fn spec_list_lines(es: Seq<VoiceEntryV>) -> Seq<Seq<u8>>
    decreases es.len(),
{
    if es.len() == 0 {
        Seq::empty()
    } else {
        spec_list_lines(es.drop_last()) + (match spec_list_line(es.last()) {
            Some(l) => seq![l],
            None => Seq::empty(),
        })
    }
}

/// The views of a sequence of protocol lines.
pub open spec fn line_views(ls: Seq<Vec<u8>>) -> Seq<Seq<u8>> {
    Seq::new(ls.len(), |i: int| ls[i]@)
}

impl Registry {
    /// The voice-list continuation lines, one per listable voice: name,
    /// display language tag and dataset label, tab-separated. An entry whose
    /// accent code yields no tag is skipped.
    pub fn list_lines(&self) -> (r: Vec<Vec<u8>>)
        ensures
            line_views(r@) == spec_list_lines(self@),
    {
        let n = self.entries.len();
        let mut r: Vec<Vec<u8>> = Vec::new();
        proof {
            assert(line_views(r@) =~= spec_list_lines(self@.take(0)));
        }
        let mut i: usize = 0;
        while i < n
            invariant
                n == self@.len(),
                n == self.entries@.len(),
                i <= n,
                line_views(r@) == spec_list_lines(self@.take(i as int)),
            decreases n - i,
        {
            let e = &self.entries[i];
            match lang_tag(&e.accent) {
                Some(t) => {
                    proof {
                        reveal_strlit("200-");
                        reveal_strlit("none");
                        assert(is_ascii("200-"));
                        assert(is_ascii("none"));
                    }
                    let mut line = ascii_lit("200-");
                    push_all(&mut line, &e.name);
                    line.push(0x09);
                    push_all(&mut line, &t);
                    line.push(0x09);
                    match &e.dataset {
                        Some(d) => push_all(&mut line, d),
                        None => {
                            let nn = ascii_lit("none");
                            push_all(&mut line, &nn);
                        },
                    }
                    proof {
                        assert(line@ =~= match spec_list_line(self@[i as int]) {
                            Some(l) => l,
                            None => Seq::<u8>::empty(),
                        });
                    }
                    r.push(line);
                },
                None => {
                },
            }
            proof {
                assert(self@.take(i + 1 as int).drop_last() =~= self@.take(i as int));
                assert(self@.take(i + 1 as int).last() == self@[i as int]);
                assert(line_views(r@) =~= spec_list_lines(self@.take(i + 1 as int)));
            }
            i += 1;
        }
        proof {
            assert(self@.take(n as int) =~= self@);
        }
        r
    }
}

/// Two registry states that list the same voices: equal but for the built
/// marks.
pub open spec fn same_voices(a: Seq<VoiceEntryV>, b: Seq<VoiceEntryV>) -> bool {
    a.len() == b.len() && forall|i: int|
        0 <= i < a.len() ==> #[trigger] a[i] == VoiceEntryV { built: b[i].built, ..b[i] }
}

/// Discovery never repeats a voice name.
pub proof fn lemma_discover_names_unique(ins: Seq<VoiceInputV>)
    ensures
        forall|i: int, j: int|
            0 <= i < j < spec_discover(ins).len() ==> #[trigger] spec_discover(ins)[i].name != (
            #[trigger] spec_discover(ins)[j].name),
    decreases ins.len(),
{
    if ins.len() > 0 {
        lemma_discover_names_unique(ins.drop_last());
        let prev = spec_discover(ins.drop_last());
        let e = entry_of(ins.last(), ins.len() - 1);
        lemma_find_name_props(prev, e.name);
    }
}

/// Idempotent discovery: re-running discovery over unchanged inputs yields
/// the identical voice set and leaves every built mark — every cached
/// synthesizer — untouched.
pub proof fn lemma_rediscover_unchanged(old_es: Seq<VoiceEntryV>, ins: Seq<VoiceInputV>)
    requires
        same_voices(old_es, spec_discover(ins)),
    ensures
        spec_rediscover(old_es, ins) == old_es,
{
    let d = spec_discover(ins);
    lemma_discover_names_unique(ins);
    assert forall|i: int| 0 <= i < d.len() implies spec_rediscover(old_es, ins)[i] == old_es[i] by {
        assert(old_es[i].name == d[i].name);
        assert forall|j: int| 0 <= j < i implies old_es[j].name != d[i].name by {
            assert(old_es[j].name == d[j].name);
        }
        lemma_find_name_at(old_es, d[i].name, i);
    }
    assert(spec_rediscover(old_es, ins) =~= old_es);
}

} // verus!
