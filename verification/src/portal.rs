//! The file-chooser portal logic: decoding the dynamically typed option
//! values a portal call carries, translating filters into picker arguments,
//! reading the picker's stdout protocol, and shaping the reply.
use vstd::prelude::*;
use vstd::string::StrSliceExecFns;
use vstd::string::StringExecFns;

use crate::entry::opt_str_view;
use crate::text::str_eq;
use crate::uri::{encode_file_uri, file_uri_of};

verus! {

/// A portal option value, reduced to the shapes the decoder reads: the
/// neutral form of a D-Bus variant.
#[derive(Debug)]
pub enum PortalValue {
    Bool(bool),
    Num(u64),
    Str(String),
    Arr(Vec<PortalValue>),
}

/// The option dictionary of one portal call.
#[derive(Debug)]
pub struct PortalOptions {
    pub pairs: Vec<(String, PortalValue)>,
}

/// The first value stored under a key.
pub open spec fn spec_lookup(pairs: Seq<(String, PortalValue)>, key: Seq<char>) -> Option<
    PortalValue,
>
    decreases pairs.len(),
{
    if pairs.len() == 0 {
        None
    } else if pairs.first().0@ == key {
        Some(pairs.first().1)
    } else {
        spec_lookup(pairs.drop_first(), key)
    }
}

impl PortalOptions {
    /// An empty option dictionary.
    pub fn new() -> (r: Self)
        ensures
            r.pairs@.len() == 0,
    {
        PortalOptions { pairs: Vec::new() }
    }

    /// Add one key/value pair.
    pub fn insert(&mut self, key: String, value: PortalValue)
        ensures
            final(self).pairs@ == old(self).pairs@.push((key, value)),
    {
        self.pairs.push((key, value));
    }

    /// Look a key up.
    pub fn get(&self, key: &str) -> (r: Option<&PortalValue>)
        ensures
            match r {
                Some(v) => spec_lookup(self.pairs@, key@) == Some(*v),
                None => spec_lookup(self.pairs@, key@) is None,
            },
    {
        let n = self.pairs.len();
        let mut i: usize = 0;
        proof {
            assert(self.pairs@.skip(0) =~= self.pairs@);
        }
        while i < n
            invariant
                i <= n,
                n == self.pairs@.len(),
                spec_lookup(self.pairs@, key@) == spec_lookup(self.pairs@.skip(i as int), key@),
            decreases n - i,
        {
            proof {
                assert(self.pairs@.skip(i as int).first() == self.pairs@[i as int]);
                assert(self.pairs@.skip(i as int).drop_first() =~= self.pairs@.skip(i + 1));
            }
            if str_eq(self.pairs[i].0.as_str(), key) {
                return Some(&self.pairs[i].1);
            }
            i = i + 1;
        }
        None
    }
}

/// The bytes a value array encodes: each numeric element, reduced mod 256;
/// other elements are skipped.
pub open spec fn bytes_of_items(items: Seq<PortalValue>) -> Seq<u8>
    decreases items.len(),
{
    if items.len() == 0 {
        Seq::empty()
    } else {
        bytes_of_items(items.drop_last()) + (match items.last() {
            PortalValue::Num(n) => seq![(n % 256) as u8],
            _ => Seq::empty(),
        })
    }
}

/// The prefix before the first NUL byte (the whole string when none).
pub open spec fn before_nul(bs: Seq<u8>) -> Seq<u8>
    decreases bs.len(),
{
    if bs.len() == 0 {
        Seq::empty()
    } else if bs.first() == 0 {
        Seq::empty()
    } else {
        seq![bs.first()] + before_nul(bs.drop_first())
    }
}

proof fn lemma_before_nul(bs: Seq<u8>, i: int)
    requires
        0 <= i <= bs.len(),
        forall|k: int| 0 <= k < i ==> bs[k] != 0,
        i == bs.len() || bs[i] == 0,
    ensures
        before_nul(bs) == bs.take(i),
    decreases i,
{
    if i == 0 {
        assert(bs.take(0) =~= Seq::<u8>::empty());
    } else {
        assert(bs.first() != 0);
        let rest = bs.drop_first();
        assert(forall|k: int| 0 <= k < i - 1 ==> rest[k] != 0);
        lemma_before_nul(rest, i - 1);
        assert(seq![bs.first()] + rest.take(i - 1) =~= bs.take(i));
    }
}

/// Relies on `String::from_utf8`: succeeds exactly on valid UTF-8 and
/// returns the string those bytes spell.
#[verifier::external_body]
fn utf8_to_string(v: Vec<u8>) -> (r: Option<String>)
    ensures
        match r {
            Some(s) => vstd::utf8::valid_utf8(v@) && s@ == vstd::utf8::decode_utf8(v@),
            None => !vstd::utf8::valid_utf8(v@),
        },
{
    String::from_utf8(v).ok()
}

fn items_to_bytes(items: &Vec<PortalValue>) -> (r: Vec<u8>)
    ensures
        r@ == bytes_of_items(items@),
{
    let mut out: Vec<u8> = Vec::new();
    let n = items.len();
    let mut i: usize = 0;
    proof {
        assert(items@.take(0) =~= Seq::<PortalValue>::empty());
    }
    while i < n
        invariant
            i <= n,
            n == items@.len(),
            out@ == bytes_of_items(items@.take(i as int)),
        decreases n - i,
    {
        let ghost prefix = items@.take(i as int);
        match &items[i] {
            PortalValue::Num(num) => {
                out.push((*num % 256) as u8);
            },
            _ => {},
        }
        proof {
            assert(items@.take(i + 1).drop_last() =~= prefix);
            assert(items@.take(i + 1).last() == items@[i as int]);
            assert(out@ =~= bytes_of_items(items@.take(i + 1)));
        }
        i = i + 1;
    }
    proof {
        assert(items@.take(n as int) =~= items@);
    }
    out
}

fn take_before_nul(bytes: &Vec<u8>) -> (r: Vec<u8>)
    ensures
        r@ == before_nul(bytes@),
{
    let n = bytes.len();
    let mut out: Vec<u8> = Vec::new();
    let mut i: usize = 0;
    while i < n && bytes[i] != 0
        invariant
            i <= n,
            n == bytes@.len(),
            out@ == bytes@.take(i as int),
            forall|k: int| 0 <= k < i ==> bytes@[k] != 0,
        decreases n - i,
    {
        out.push(bytes[i]);
        proof {
            assert(out@ =~= bytes@.take(i + 1));
        }
        i = i + 1;
    }
    proof {
        lemma_before_nul(bytes@, i as int);
    }
    out
}

/// What the `multiple` / `directory` style boolean options decode to.
pub open spec fn spec_extract_bool(opts: PortalOptions, key: Seq<char>) -> bool {
    match spec_lookup(opts.pairs@, key) {
        Some(PortalValue::Bool(b)) => b,
        _ => false,
    }
}

/// Read a boolean option; anything else (or nothing) reads as false.
pub fn extract_bool(options: &PortalOptions, key: &str) -> (r: bool)
    ensures
        r == spec_extract_bool(*options, key@),
{
    match options.get(key) {
        Some(PortalValue::Bool(b)) => *b,
        _ => false,
    }
}

/// What `current_folder` decodes to: a non-empty string, or a byte array
/// truncated at its first NUL and read as UTF-8 when non-empty.
pub open spec fn spec_current_folder(opts: PortalOptions) -> Option<Seq<char>> {
    match spec_lookup(opts.pairs@, "current_folder"@) {
        Some(PortalValue::Str(s)) => if s@.len() > 0 {
            Some(s@)
        } else {
            None
        },
        Some(PortalValue::Arr(items)) => {
            let clean = before_nul(bytes_of_items(items@));
            if clean.len() > 0 && vstd::utf8::valid_utf8(clean) {
                Some(vstd::utf8::decode_utf8(clean))
            } else {
                None
            }
        },
        _ => None,
    }
}

/// Decode the `current_folder` option: a string downcast first, then the
/// NUL-terminated byte-array form; empty folders count as absent.
pub fn extract_current_folder(options: &PortalOptions) -> (r: Option<String>)
    ensures
        opt_str_view(r) == spec_current_folder(*options),
{
    let v = match options.get("current_folder") {
        Some(v) => v,
        None => {
            return None;
        },
    };
    match v {
        PortalValue::Str(s) => {
            if !s.as_str().is_empty() {
                Some(s.clone())
            } else {
                None
            }
        },
        PortalValue::Arr(items) => {
            let bytes = items_to_bytes(items);
            let clean = take_before_nul(&bytes);
            if clean.len() == 0 {
                None
            } else {
                utf8_to_string(clean)
            }
        },
        _ => None,
    }
}

/// What `current_name` decodes to: a non-empty string downcast only.
pub open spec fn spec_current_name(opts: PortalOptions) -> Option<Seq<char>> {
    match spec_lookup(opts.pairs@, "current_name"@) {
        Some(PortalValue::Str(s)) => if s@.len() > 0 {
            Some(s@)
        } else {
            None
        },
        _ => None,
    }
}

/// Decode the `current_name` option; empty names count as absent.
pub fn extract_current_name(options: &PortalOptions) -> (r: Option<String>)
    ensures
        opt_str_view(r) == spec_current_name(*options),
{
    match options.get("current_name") {
        Some(PortalValue::Str(s)) => {
            if !s.as_str().is_empty() {
                Some(s.clone())
            } else {
                None
            }
        },
        _ => None,
    }
}

/// The file name one element of the `files` array decodes to: a string as
/// it stands, or a byte array truncated at its first NUL and read as UTF-8.
pub open spec fn filename_of_item(v: PortalValue) -> Option<Seq<char>> {
    match v {
        PortalValue::Str(s) => Some(s@),
        PortalValue::Arr(bytes) => {
            let clean = before_nul(bytes_of_items(bytes@));
            if vstd::utf8::valid_utf8(clean) {
                Some(vstd::utf8::decode_utf8(clean))
            } else {
                None
            }
        },
        _ => None,
    }
}

/// The file names an array of elements decodes to, in order.
pub open spec fn collect_filenames(items: Seq<PortalValue>) -> Seq<Seq<char>>
    decreases items.len(),
{
    if items.len() == 0 {
        Seq::empty()
    } else {
        collect_filenames(items.drop_last()) + (match filename_of_item(items.last()) {
            Some(s) => seq![s],
            None => Seq::empty(),
        })
    }
}

/// What the `files` option decodes to; anything but an array reads as none.
pub open spec fn spec_filenames(opts: PortalOptions) -> Seq<Seq<char>> {
    match spec_lookup(opts.pairs@, "files"@) {
        Some(PortalValue::Arr(items)) => collect_filenames(items@),
        _ => Seq::empty(),
    }
}

/// Decode the `files` option: the pre-chosen names a SaveFiles call hands
/// over, each a string or a NUL-terminated byte array.
pub fn extract_filenames(options: &PortalOptions) -> (r: Vec<String>)
    ensures
        r.deep_view() == spec_filenames(*options),
{
    let items = match options.get("files") {
        Some(PortalValue::Arr(items)) => items,
        _ => {
            let r: Vec<String> = Vec::new();
            proof {
                assert(r.deep_view() =~= Seq::<Seq<char>>::empty());
            }
            return r;
        },
    };
    let n = items.len();
    let mut out: Vec<String> = Vec::new();
    let mut i: usize = 0;
    proof {
        assert(items@.take(0) =~= Seq::<PortalValue>::empty());
        assert(out.deep_view() =~= collect_filenames(items@.take(0)));
    }
    while i < n
        invariant
            i <= n,
            n == items@.len(),
            out.deep_view() == collect_filenames(items@.take(i as int)),
        decreases n - i,
    {
        let ghost prefix = items@.take(i as int);
        match &items[i] {
            PortalValue::Str(s) => {
                out.push(s.clone());
            },
            PortalValue::Arr(bytes) => {
                let bs = items_to_bytes(bytes);
                let clean = take_before_nul(&bs);
                match utf8_to_string(clean) {
                    Some(s) => {
                        out.push(s);
                    },
                    None => {},
                }
            },
            _ => {},
        }
        proof {
            assert(items@.take(i + 1).drop_last() =~= prefix);
            assert(items@.take(i + 1).last() == items@[i as int]);
            assert(out.deep_view() =~= collect_filenames(items@.take(i + 1)));
        }
        i = i + 1;
    }
    proof {
        assert(items@.take(n as int) =~= items@);
    }
    out
}

/// One translated file filter: a display name and its glob patterns.
#[derive(Debug)]
pub struct FileFilter {
    pub name: String,
    pub patterns: Vec<String>,
}

/// The view of a filter list: names with their patterns.
pub open spec fn filters_view(s: Seq<FileFilter>) -> Seq<(Seq<char>, Seq<Seq<char>>)> {
    s.map_values(|f: FileFilter| (f.name@, f.patterns.deep_view()))
}

/// The glob one pattern tuple contributes: only match type 0 with a
/// non-empty pattern counts.
pub open spec fn pattern_of(v: PortalValue) -> Option<Seq<char>> {
    match v {
        PortalValue::Arr(t) => if t@.len() >= 2 {
            let mt = match t@[0] {
                PortalValue::Num(n) => n,
                _ => 99u64,
            };
            let p = match t@[1] {
                PortalValue::Str(s) => s@,
                _ => Seq::empty(),
            };
            if mt == 0 && p.len() > 0 {
                Some(p)
            } else {
                None
            }
        } else {
            None
        },
        _ => None,
    }
}

/// The globs a pattern array contributes, in order.
pub open spec fn patterns_of(pats: Seq<PortalValue>) -> Seq<Seq<char>>
    decreases pats.len(),
{
    if pats.len() == 0 {
        Seq::empty()
    } else {
        patterns_of(pats.drop_last()) + (match pattern_of(pats.last()) {
            Some(p) => seq![p],
            None => Seq::empty(),
        })
    }
}

/// The filter one element of the `filters` array decodes to: a name (with
/// its fallback) and the globs; a filter without globs is dropped.
pub open spec fn filter_of(v: PortalValue) -> Option<(Seq<char>, Seq<Seq<char>>)> {
    match v {
        PortalValue::Arr(t) => if t@.len() >= 2 {
            let name = match t@[0] {
                PortalValue::Str(s) => s@,
                _ => "Filter"@,
            };
            let pats = match t@[1] {
                PortalValue::Arr(ps) => patterns_of(ps@),
                _ => Seq::empty(),
            };
            if pats.len() > 0 {
                Some((name, pats))
            } else {
                None
            }
        } else {
            None
        },
        _ => None,
    }
}

/// The filters an array of elements decodes to, in order.
pub open spec fn collect_filters(items: Seq<PortalValue>) -> Seq<(Seq<char>, Seq<Seq<char>>)>
    decreases items.len(),
{
    if items.len() == 0 {
        Seq::empty()
    } else {
        collect_filters(items.drop_last()) + (match filter_of(items.last()) {
            Some(f) => seq![f],
            None => Seq::empty(),
        })
    }
}

/// What the `filters` option decodes to; anything but an array reads as none.
pub open spec fn spec_filters(opts: PortalOptions) -> Seq<(Seq<char>, Seq<Seq<char>>)> {
    match spec_lookup(opts.pairs@, "filters"@) {
        Some(PortalValue::Arr(items)) => collect_filters(items@),
        _ => Seq::empty(),
    }
}

/// Decode the `filters` option: each filter is a (name, patterns) pair,
/// each pattern a (match type, glob) pair; only glob patterns (type 0) with
/// text are kept, and filters left without patterns are dropped.
pub fn parse_filters(options: &PortalOptions) -> (r: Vec<FileFilter>)
    ensures
        filters_view(r@) == spec_filters(*options),
{
    let items = match options.get("filters") {
        Some(PortalValue::Arr(items)) => items,
        _ => {
            let r: Vec<FileFilter> = Vec::new();
            proof {
                assert(filters_view(r@) =~= Seq::<(Seq<char>, Seq<Seq<char>>)>::empty());
            }
            return r;
        },
    };
    let n = items.len();
    let mut result: Vec<FileFilter> = Vec::new();
    let mut i: usize = 0;
    proof {
        assert(items@.take(0) =~= Seq::<PortalValue>::empty());
        assert(filters_view(result@) =~= collect_filters(items@.take(0)));
    }
    while i < n
        invariant
            i <= n,
            n == items@.len(),
            filters_view(result@) == collect_filters(items@.take(i as int)),
        decreases n - i,
    {
        let ghost prefix = items@.take(i as int);
        match &items[i] {
            PortalValue::Arr(t) => {
                if t.len() >= 2 {
                    let name: String = match &t[0] {
                        PortalValue::Str(s) => s.clone(),
                        _ => String::from_str("Filter"),
                    };
                    let mut patterns: Vec<String> = Vec::new();
                    match &t[1] {
                        PortalValue::Arr(ps) => {
                            let m = ps.len();
                            let mut j: usize = 0;
                            proof {
                                assert(ps@.take(0) =~= Seq::<PortalValue>::empty());
                                assert(patterns.deep_view() =~= patterns_of(ps@.take(0)));
                            }
                            while j < m
                                invariant
                                    j <= m,
                                    m == ps@.len(),
                                    patterns.deep_view() == patterns_of(ps@.take(j as int)),
                                decreases m - j,
                            {
                                let ghost pprefix = ps@.take(j as int);
                                match &ps[j] {
                                    PortalValue::Arr(pt) => {
                                        if pt.len() >= 2 {
                                            let mt: u64 = match &pt[0] {
                                                PortalValue::Num(num) => *num,
                                                _ => 99,
                                            };
                                            let p: String = match &pt[1] {
                                                PortalValue::Str(s) => s.clone(),
                                                _ => String::new(),
                                            };
                                            if mt == 0 && !p.as_str().is_empty() {
                                                patterns.push(p);
                                            }
                                        }
                                    },
                                    _ => {},
                                }
                                proof {
                                    assert(ps@.take(j + 1).drop_last() =~= pprefix);
                                    assert(ps@.take(j + 1).last() == ps@[j as int]);
                                    assert(patterns.deep_view() =~= patterns_of(ps@.take(j + 1)));
                                }
                                j = j + 1;
                            }
                            proof {
                                assert(ps@.take(m as int) =~= ps@);
                            }
                        },
                        _ => {},
                    }
                    if patterns.len() > 0 {
                        result.push(FileFilter { name, patterns });
                    }
                }
            },
            _ => {},
        }
        proof {
            assert(items@.take(i + 1).drop_last() =~= prefix);
            assert(items@.take(i + 1).last() == items@[i as int]);
            assert(filters_view(result@) =~= collect_filters(items@.take(i + 1)));
        }
        i = i + 1;
    }
    proof {
        assert(items@.take(n as int) =~= items@);
    }
    result
}

/// A glob of the `*.ext` shape, the only shape the picker understands.
pub open spec fn is_glob_ext(p: Seq<char>) -> bool {
    p.len() >= 2 && p[0] == '*' && p[1] == '.'
}

/// The extensions a pattern list contributes: every `*.ext` stripped of its
/// prefix, other shapes dropped.
pub open spec fn strip_exts(pats: Seq<Seq<char>>) -> Seq<Seq<char>>
    decreases pats.len(),
{
    if pats.len() == 0 {
        Seq::empty()
    } else {
        strip_exts(pats.drop_last()) + (if is_glob_ext(pats.last()) {
            seq![pats.last().skip(2)]
        } else {
            Seq::empty()
        })
    }
}

/// The union of the extensions of all filters, in order.
pub open spec fn extensions_of(filters: Seq<(Seq<char>, Seq<Seq<char>>)>) -> Seq<Seq<char>>
    decreases filters.len(),
{
    if filters.len() == 0 {
        Seq::empty()
    } else {
        extensions_of(filters.drop_last()) + strip_exts(filters.last().1)
    }
}

/// Comma-joined text.
pub open spec fn join_comma(xs: Seq<Seq<char>>) -> Seq<char>
    decreases xs.len(),
{
    if xs.len() == 0 {
        Seq::empty()
    } else if xs.len() == 1 {
        xs.first()
    } else {
        join_comma(xs.drop_last()) + seq![','] + xs.last()
    }
}

/// The picker's argument list for a mode, the multi-select flag, the
/// translated filters, and the optional start directory and save name.
pub open spec fn spec_picker_args(
    mode: Seq<char>,
    multiple: bool,
    filters: Seq<(Seq<char>, Seq<Seq<char>>)>,
    folder: Option<Seq<char>>,
    name: Option<Seq<char>>,
) -> Seq<Seq<char>> {
    seq![mode] + (if multiple {
        seq!["--multiple"@]
    } else {
        Seq::empty()
    }) + (if extensions_of(filters).len() > 0 {
        seq!["--types"@, join_comma(extensions_of(filters))]
    } else {
        Seq::empty()
    }) + (match folder {
        Some(f) => seq!["--start-dir"@, f],
        None => Seq::empty(),
    }) + (match name {
        Some(nm) => seq!["--current-name"@, nm],
        None => Seq::empty(),
    })
}

/// The response pair a portal method returns: `1` (cancelled) without URIs,
/// `0` (success) with them.
#[derive(Debug)]
pub struct PortalReply {
    pub code: u32,
    pub uris: Vec<String>,
}

/// The portal backend: it knows where the picker binary lives.
pub struct FileChooserPortal {
    pub picker_path: String,
}

impl FileChooserPortal {
    /// A backend around the picker binary at the given path.
    pub fn with_picker_path(picker_path: String) -> (r: Self)
        ensures
            r.picker_path == picker_path,
    {
        FileChooserPortal { picker_path }
    }

    /// The FileChooser interface version served.
    pub fn version() -> (r: u32)
        ensures
            r == 3,
    {
        3
    }

    /// Build the picker's argument list: the mode flag, `--multiple` when
    /// asked, `--types` with the comma-joined extensions of the filters,
    /// and the start directory and save name where present.
    pub fn build_picker_args(
        mode: &str,
        multiple: bool,
        filters: &Vec<FileFilter>,
        current_folder: &Option<String>,
        current_name: &Option<String>,
    ) -> (r: Vec<String>)
        ensures
            r.deep_view() == spec_picker_args(
                mode@,
                multiple,
                filters_view(filters@),
                opt_str_view(*current_folder),
                opt_str_view(*current_name),
            ),
    {
        let ghost fv = filters_view(filters@);
        let mut args: Vec<String> = Vec::new();
        args.push(mode.to_owned());
        if multiple {
            args.push(String::from_str("--multiple"));
        }
        let ghost seg2 = seq![mode@] + (if multiple {
            seq!["--multiple"@]
        } else {
            Seq::<Seq<char>>::empty()
        });
        proof {
            assert(args.deep_view() =~= seg2);
        }
        let mut exts: Vec<String> = Vec::new();
        let nf = filters.len();
        let mut i: usize = 0;
        proof {
            assert(fv.take(0) =~= Seq::<(Seq<char>, Seq<Seq<char>>)>::empty());
            assert(exts.deep_view() =~= extensions_of(fv.take(0)));
        }
        while i < nf
            invariant
                i <= nf,
                nf == filters@.len(),
                fv == filters_view(filters@),
                exts.deep_view() == extensions_of(fv.take(i as int)),
            decreases nf - i,
        {
            let ghost pv = filters@[i as int].patterns.deep_view();
            let pats = &filters[i].patterns;
            let np = pats.len();
            let mut j: usize = 0;
            proof {
                assert(pv.take(0) =~= Seq::<Seq<char>>::empty());
                assert(strip_exts(pv.take(0)) =~= Seq::<Seq<char>>::empty());
                assert(exts.deep_view() + strip_exts(pv.take(0)) =~= exts.deep_view());
            }
            let ghost base = exts.deep_view();
            while j < np
                invariant
                    j <= np,
                    np == pats@.len(),
                    pv == pats.deep_view(),
                    exts.deep_view() == base + strip_exts(pv.take(j as int)),
                decreases np - j,
            {
                let p = &pats[j];
                let plen = p.as_str().unicode_len();
                let ghost before = exts.deep_view();
                if plen >= 2 && p.as_str().get_char(0) == '*' && p.as_str().get_char(1) == '.' {
                    let ext = p.as_str().substring_char(2, plen);
                    exts.push(ext.to_owned());
                    proof {
                        assert(ext@ =~= pv[j as int].skip(2));
                        assert(exts.deep_view() =~= before.push(pv[j as int].skip(2)));
                    }
                }
                proof {
                    assert(pv.take(j + 1).drop_last() =~= pv.take(j as int));
                    assert(pv.take(j + 1).last() == pv[j as int]);
                    if is_glob_ext(pv[j as int]) {
                        assert(strip_exts(pv.take(j + 1)) =~= strip_exts(pv.take(j as int))
                            + seq![pv[j as int].skip(2)]);
                        assert((base + strip_exts(pv.take(j as int))).push(pv[j as int].skip(2))
                            =~= base + (strip_exts(pv.take(j as int)) + seq![pv[j as int].skip(
                            2,
                        )]));
                    } else {
                        assert(strip_exts(pv.take(j + 1)) =~= strip_exts(pv.take(j as int)));
                    }
                    assert(exts.deep_view() =~= base + strip_exts(pv.take(j + 1)));
                }
                j = j + 1;
            }
            proof {
                assert(pv.take(np as int) =~= pv);
                assert(fv.take(i + 1).drop_last() =~= fv.take(i as int));
                assert(fv.take(i + 1).last() == fv[i as int]);
                assert(fv[i as int].1 == pv);
                assert(exts.deep_view() =~= extensions_of(fv.take(i + 1)));
            }
            i = i + 1;
        }
        proof {
            assert(fv.take(nf as int) =~= fv);
        }
        if exts.len() > 0 {
            args.push(String::from_str("--types"));
            let ghost edv = exts.deep_view();
            let mut joined = exts[0].clone();
            let ne = exts.len();
            let mut k: usize = 1;
            proof {
                assert(edv.take(1).len() == 1);
                assert(edv.take(1).first() == edv[0]);
                assert(joined@ == join_comma(edv.take(1)));
            }
            while k < ne
                invariant
                    1 <= k <= ne,
                    ne == exts@.len(),
                    edv == exts.deep_view(),
                    joined@ == join_comma(edv.take(k as int)),
                decreases ne - k,
            {
                joined.append(",");
                joined.append(exts[k].as_str());
                proof {
                    reveal_strlit(",");
                    assert((",")@ =~= seq![',']);
                    assert(edv.take(k + 1).drop_last() =~= edv.take(k as int));
                    assert(edv.take(k + 1).last() == edv[k as int]);
                    assert(joined@ =~= join_comma(edv.take(k + 1)));
                }
                k = k + 1;
            }
            proof {
                assert(edv.take(ne as int) =~= edv);
            }
            args.push(joined);
        }
        let ghost seg3 = seg2 + (if extensions_of(fv).len() > 0 {
            seq!["--types"@, join_comma(extensions_of(fv))]
        } else {
            Seq::<Seq<char>>::empty()
        });
        proof {
            assert(args.deep_view() =~= seg3);
        }
        match current_folder {
            Some(f) => {
                args.push(String::from_str("--start-dir"));
                args.push(f.clone());
            },
            None => {},
        }
        let ghost seg4 = seg3 + (match opt_str_view(*current_folder) {
            Some(f) => seq!["--start-dir"@, f],
            None => Seq::<Seq<char>>::empty(),
        });
        proof {
            assert(args.deep_view() =~= seg4);
        }
        match current_name {
            Some(nm) => {
                args.push(String::from_str("--current-name"));
                args.push(nm.clone());
            },
            None => {},
        }
        proof {
            assert(args.deep_view() =~= seg4 + (match opt_str_view(*current_name) {
                Some(nm) => seq!["--current-name"@, nm],
                None => Seq::<Seq<char>>::empty(),
            }));
        }
        args
    }

    /// The argument list an OpenFile call launches the picker with.
    pub fn open_file_args(options: &PortalOptions) -> (r: Vec<String>)
        ensures
            r.deep_view() == spec_picker_args(
                if spec_extract_bool(*options, "directory"@) {
                    "--picker-dirs"@
                } else {
                    "--picker"@
                },
                spec_extract_bool(*options, "multiple"@),
                spec_filters(*options),
                spec_current_folder(*options),
                None,
            ),
    {
        let multiple = extract_bool(options, "multiple");
        let directory = extract_bool(options, "directory");
        let current_folder = extract_current_folder(options);
        let filters = parse_filters(options);
        let mode: &str = if directory {
            "--picker-dirs"
        } else {
            "--picker"
        };
        let no_name: Option<String> = None;
        Self::build_picker_args(mode, multiple, &filters, &current_folder, &no_name)
    }

    /// The argument list a SaveFile call launches the picker with: save
    /// mode, never multiple, seeded with the suggested name.
    pub fn save_file_args(options: &PortalOptions) -> (r: Vec<String>)
        ensures
            r.deep_view() == spec_picker_args(
                "--picker-save"@,
                false,
                spec_filters(*options),
                spec_current_folder(*options),
                spec_current_name(*options),
            ),
    {
        let current_folder = extract_current_folder(options);
        let current_name = extract_current_name(options);
        let filters = parse_filters(options);
        Self::build_picker_args("--picker-save", false, &filters, &current_folder, &current_name)
    }

    /// The argument list a SaveFiles call launches the picker with: a
    /// directory choice, no filters.
    pub fn save_files_args(options: &PortalOptions) -> (r: Vec<String>)
        ensures
            r.deep_view() == spec_picker_args(
                "--picker-dirs"@,
                false,
                Seq::empty(),
                spec_current_folder(*options),
                None,
            ),
    {
        let current_folder = extract_current_folder(options);
        let no_filters: Vec<FileFilter> = Vec::new();
        let no_name: Option<String> = None;
        proof {
            assert(filters_view(no_filters@) =~= Seq::<(Seq<char>, Seq<Seq<char>>)>::empty());
        }
        Self::build_picker_args("--picker-dirs", false, &no_filters, &current_folder, &no_name)
    }
}

/// The line prefix under which the picker reports one selected path.
pub open spec fn selected_prefix() -> Seq<char> {
    "HARDBORE_SELECTED:"@
}

/// The paths the picker's stdout lines carry: what follows the selection
/// prefix, line by line; other lines (the cancel line among them) say
/// nothing.
pub open spec fn selected_of(lines: Seq<Seq<char>>) -> Seq<Seq<char>>
    decreases lines.len(),
{
    if lines.len() == 0 {
        Seq::empty()
    } else {
        selected_of(lines.drop_last()) + (if lines.last().len() >= selected_prefix().len()
            && lines.last().take(selected_prefix().len() as int) == selected_prefix() {
            seq![lines.last().skip(selected_prefix().len() as int)]
        } else {
            Seq::empty()
        })
    }
}

/// Read the picker's stdout protocol: each line beginning with the
/// selection prefix yields the path after it.
pub fn selected_paths(lines: &Vec<String>) -> (r: Vec<String>)
    ensures
        r.deep_view() == selected_of(lines.deep_view()),
{
    let prefix = "HARDBORE_SELECTED:";
    let plen = prefix.unicode_len();
    let ghost lv = lines.deep_view();
    let n = lines.len();
    let mut out: Vec<String> = Vec::new();
    let mut i: usize = 0;
    proof {
        assert(lv.take(0) =~= Seq::<Seq<char>>::empty());
        assert(out.deep_view() =~= selected_of(lv.take(0)));
    }
    while i < n
        invariant
            i <= n,
            n == lines@.len(),
            lv == lines.deep_view(),
            plen == selected_prefix().len(),
            prefix@ == selected_prefix(),
            out.deep_view() == selected_of(lv.take(i as int)),
        decreases n - i,
    {
        let line = &lines[i];
        let llen = line.as_str().unicode_len();
        let ghost before = out.deep_view();
        if llen >= plen {
            let head = line.as_str().substring_char(0, plen);
            proof {
                assert(head@ =~= lv[i as int].take(plen as int));
            }
            if str_eq(head, prefix) {
                let tail = line.as_str().substring_char(plen, llen);
                out.push(tail.to_owned());
                proof {
                    assert(tail@ =~= lv[i as int].skip(plen as int));
                    assert(out.deep_view() =~= before.push(lv[i as int].skip(plen as int)));
                }
            }
        }
        proof {
            assert(lv.take(i + 1).drop_last() =~= lv.take(i as int));
            assert(lv.take(i + 1).last() == lv[i as int]);
            let matched = lv[i as int].len() >= selected_prefix().len() && lv[i as int].take(
                selected_prefix().len() as int,
            ) == selected_prefix();
            if matched {
                assert(selected_of(lv.take(i + 1)) =~= selected_of(lv.take(i as int))
                    + seq![lv[i as int].skip(selected_prefix().len() as int)]);
                assert(before.push(lv[i as int].skip(selected_prefix().len() as int)) =~= before
                    + seq![lv[i as int].skip(selected_prefix().len() as int)]);
            } else {
                assert(selected_of(lv.take(i + 1)) =~= selected_of(lv.take(i as int)));
            }
            assert(out.deep_view() =~= selected_of(lv.take(i + 1)));
        }
        i = i + 1;
    }
    proof {
        assert(lv.take(n as int) =~= lv);
    }
    out
}

/// The URIs of a list of paths.
pub open spec fn uris_of(paths: Seq<Seq<char>>) -> Seq<Seq<char>> {
    paths.map_values(|p: Seq<char>| file_uri_of(p))
}

/// Shape the reply: an empty selection is a cancellation (code 1), anything
/// else succeeds (code 0) and carries the URIs.
pub fn build_response(uris: Vec<String>) -> (r: PortalReply)
    ensures
        r.code == (if uris@.len() == 0 {
            1u32
        } else {
            0u32
        }),
        r.uris == uris,
{
    let code: u32 = if uris.len() == 0 {
        1
    } else {
        0
    };
    PortalReply { code, uris }
}

/// The reply for a plain selection: every selected path as a `file://` URI,
/// or a cancellation when nothing was selected.
pub fn reply_for_selection(selected: &Vec<String>) -> (r: PortalReply)
    ensures
        r.uris.deep_view() == uris_of(selected.deep_view()),
        r.code == (if selected.deep_view().len() == 0 {
            1u32
        } else {
            0u32
        }),
{
    let ghost sv = selected.deep_view();
    let n = selected.len();
    let mut uris: Vec<String> = Vec::new();
    let mut i: usize = 0;
    while i < n
        invariant
            i <= n,
            n == selected@.len(),
            sv == selected.deep_view(),
            uris.deep_view() == uris_of(sv.take(i as int)),
        decreases n - i,
    {
        let ghost before = uris.deep_view();
        let u = encode_file_uri(selected[i].as_str());
        proof {
            assert(u@ == file_uri_of(selected@[i as int]@));
            assert(sv[i as int] == selected@[i as int]@);
        }
        uris.push(u);
        proof {
            assert(uris.deep_view() =~= before.push(file_uri_of(sv[i as int])));
            assert(uris_of(sv.take(i + 1)) =~= before.push(file_uri_of(sv[i as int])));
        }
        i = i + 1;
    }
    proof {
        assert(sv.take(n as int) =~= sv);
    }
    build_response(uris)
}

/// The URIs a SaveFiles reply carries: each chosen name joined under the
/// picked directory, or the directory itself when no names were given.
pub open spec fn spec_save_files_uris(dir: Seq<char>, names: Seq<Seq<char>>) -> Seq<Seq<char>> {
    if names.len() == 0 {
        seq![file_uri_of(dir)]
    } else {
        names.map_values(|nm: Seq<char>| file_uri_of(dir + seq!['/'] + nm))
    }
}

/// Join each provided file name to the chosen directory and encode; with no
/// names, the directory's own URI stands alone.
pub fn save_files_uris(dir: &str, filenames: &Vec<String>) -> (r: Vec<String>)
    ensures
        r.deep_view() == spec_save_files_uris(dir@, filenames.deep_view()),
{
    let ghost nv = filenames.deep_view();
    let n = filenames.len();
    if n == 0 {
        let mut out: Vec<String> = Vec::new();
        out.push(encode_file_uri(dir));
        proof {
            assert(out.deep_view() =~= spec_save_files_uris(dir@, nv));
        }
        return out;
    }
    let mut out: Vec<String> = Vec::new();
    let mut i: usize = 0;
    proof {
        assert(out.deep_view() =~= nv.take(0).map_values(
            |nm: Seq<char>| file_uri_of(dir@ + seq!['/'] + nm),
        ));
    }
    while i < n
        invariant
            i <= n,
            n == filenames@.len(),
            n > 0,
            nv == filenames.deep_view(),
            out.deep_view() == nv.take(i as int).map_values(
                |nm: Seq<char>| file_uri_of(dir@ + seq!['/'] + nm),
            ),
        decreases n - i,
    {
        let mut joined = dir.to_owned();
        joined.append("/");
        joined.append(filenames[i].as_str());
        proof {
            reveal_strlit("/");
            assert(("/")@ =~= seq!['/']);
            assert(joined@ =~= dir@ + seq!['/'] + nv[i as int]);
        }
        let ghost before = out.deep_view();
        let u = encode_file_uri(joined.as_str());
        proof {
            assert(u@ == file_uri_of(dir@ + seq!['/'] + nv[i as int]));
        }
        out.push(u);
        proof {
            assert(out.deep_view() =~= before.push(file_uri_of(dir@ + seq!['/'] + nv[i as int])));
            assert(nv.take(i + 1).map_values(|nm: Seq<char>| file_uri_of(dir@ + seq!['/'] + nm))
                =~= before.push(file_uri_of(dir@ + seq!['/'] + nv[i as int])));
        }
        i = i + 1;
    }
    proof {
        assert(nv.take(n as int) =~= nv);
        assert(out.deep_view() =~= spec_save_files_uris(dir@, nv));
    }
    out
}

/// The SaveFiles reply: cancellation when the directory pick was empty,
/// else the joined URIs of the provided names under the chosen directory.
pub fn save_files_reply(selected: &Vec<String>, options: &PortalOptions) -> (r: PortalReply)
    ensures
        selected.deep_view().len() == 0 ==> r.code == 1 && r.uris@.len() == 0,
        selected.deep_view().len() > 0 ==> r.uris.deep_view() == spec_save_files_uris(
            selected.deep_view()[0],
            spec_filenames(*options),
        ) && r.code == (if r.uris.deep_view().len() == 0 {
            1u32
        } else {
            0u32
        }),
{
    if selected.len() == 0 {
        return PortalReply { code: 1, uris: Vec::new() };
    }
    let names = extract_filenames(options);
    let uris = save_files_uris(selected[0].as_str(), &names);
    proof {
        if uris@.len() == 0 {
            assert(uris.deep_view().len() == 0);
        } else {
            assert(uris.deep_view().len() > 0);
        }
    }
    build_response(uris)
}

} // verus!
