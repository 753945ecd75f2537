//! File preview: classify a file by its extension (or its content), decode
//! text, and render the classic hex dump for binary data.
use vstd::prelude::*;

use crate::entry::{basename_of, extension_of, opt_str_view, raw_ext, spec_basename_of};
use crate::text::{lower_of, str_eq, string_from_chars};

verus! {

/// How a file is previewed.
#[derive(Clone, Copy, Debug, PartialEq, Eq, Structural)]
pub enum PreviewType {
    Code,
    Image,
    Hex,
    Auto,
}

/// A file preview: at most one of the text and hex renderings is present.
#[derive(Debug)]
pub struct FilePreview {
    pub path: String,
    pub preview_type: PreviewType,
    pub size: u64,
    pub text_content: Option<String>,
    pub hex_content: Option<String>,
    pub truncated: bool,
    pub extension: Option<String>,
}

/// Extensions previewed as (highlighted) text.
pub open spec fn is_code_ext(e: Seq<char>) -> bool {
    ||| e == "rs"@
    ||| e == "py"@
    ||| e == "js"@
    ||| e == "ts"@
    ||| e == "jsx"@
    ||| e == "tsx"@
    ||| e == "svelte"@
    ||| e == "vue"@
    ||| e == "html"@
    ||| e == "css"@
    ||| e == "scss"@
    ||| e == "sass"@
    ||| e == "json"@
    ||| e == "yaml"@
    ||| e == "yml"@
    ||| e == "toml"@
    ||| e == "xml"@
    ||| e == "md"@
    ||| e == "txt"@
    ||| e == "sh"@
    ||| e == "bash"@
    ||| e == "zsh"@
    ||| e == "c"@
    ||| e == "cpp"@
    ||| e == "h"@
    ||| e == "hpp"@
    ||| e == "go"@
    ||| e == "java"@
    ||| e == "kt"@
    ||| e == "swift"@
    ||| e == "rb"@
    ||| e == "php"@
    ||| e == "sql"@
    ||| e == "lua"@
    ||| e == "vim"@
    ||| e == "conf"@
    ||| e == "ini"@
    ||| e == "dockerfile"@
    ||| e == "makefile"@
    ||| e == "cmake"@
}

/// Extensions previewed as images.
pub open spec fn is_image_ext(e: Seq<char>) -> bool {
    ||| e == "png"@
    ||| e == "jpg"@
    ||| e == "jpeg"@
    ||| e == "gif"@
    ||| e == "webp"@
    ||| e == "svg"@
    ||| e == "ico"@
    ||| e == "bmp"@
    ||| e == "tiff"@
    ||| e == "avif"@
}

/// Extensions previewed as hex dumps outright.
pub open spec fn is_binary_ext(e: Seq<char>) -> bool {
    ||| e == "exe"@
    ||| e == "bin"@
    ||| e == "so"@
    ||| e == "dylib"@
    ||| e == "dll"@
    ||| e == "o"@
    ||| e == "a"@
}

/// What kind of preview an extension calls for before looking at content.
pub open spec fn preview_kind(ext: Option<Seq<char>>) -> PreviewType {
    match ext {
        Some(e) => if is_code_ext(e) {
            PreviewType::Code
        } else if is_image_ext(e) {
            PreviewType::Image
        } else if is_binary_ext(e) {
            PreviewType::Hex
        } else {
            PreviewType::Auto
        },
        None => PreviewType::Auto,
    }
}

fn is_code_ext_exec(e: &str) -> (r: bool)
    ensures
        r == is_code_ext(e@),
{
    str_eq(e, "rs") || str_eq(e, "py") || str_eq(e, "js") || str_eq(e, "ts") || str_eq(e, "jsx")
        || str_eq(e, "tsx") || str_eq(e, "svelte") || str_eq(e, "vue") || str_eq(e, "html")
        || str_eq(e, "css") || str_eq(e, "scss") || str_eq(e, "sass") || str_eq(e, "json")
        || str_eq(e, "yaml") || str_eq(e, "yml") || str_eq(e, "toml") || str_eq(e, "xml")
        || str_eq(e, "md") || str_eq(e, "txt") || str_eq(e, "sh") || str_eq(e, "bash") || str_eq(
        e,
        "zsh",
    ) || str_eq(e, "c") || str_eq(e, "cpp") || str_eq(e, "h") || str_eq(e, "hpp") || str_eq(
        e,
        "go",
    ) || str_eq(e, "java") || str_eq(e, "kt") || str_eq(e, "swift") || str_eq(e, "rb") || str_eq(
        e,
        "php",
    ) || str_eq(e, "sql") || str_eq(e, "lua") || str_eq(e, "vim") || str_eq(e, "conf") || str_eq(
        e,
        "ini",
    ) || str_eq(e, "dockerfile") || str_eq(e, "makefile") || str_eq(e, "cmake")
}

fn is_image_ext_exec(e: &str) -> (r: bool)
    ensures
        r == is_image_ext(e@),
{
    str_eq(e, "png") || str_eq(e, "jpg") || str_eq(e, "jpeg") || str_eq(e, "gif") || str_eq(
        e,
        "webp",
    ) || str_eq(e, "svg") || str_eq(e, "ico") || str_eq(e, "bmp") || str_eq(e, "tiff") || str_eq(
        e,
        "avif",
    )
}

fn is_binary_ext_exec(e: &str) -> (r: bool)
    ensures
        r == is_binary_ext(e@),
{
    str_eq(e, "exe") || str_eq(e, "bin") || str_eq(e, "so") || str_eq(e, "dylib") || str_eq(
        e,
        "dll",
    ) || str_eq(e, "o") || str_eq(e, "a")
}

/// The lowercase hexadecimal digit of `n < 16`.
pub open spec fn hex_char(n: u8) -> char
    recommends
        n < 16,
{
    if n < 10 {
        (('0' as u8) + n) as char
    } else {
        (('a' as u8) + (n - 10)) as char
    }
}

fn hex_char_exec(n: u8) -> (r: char)
    requires
        n < 16,
    ensures
        r == hex_char(n),
{
    if n < 10 {
        (('0' as u8) + n) as char
    } else {
        (('a' as u8) + (n - 10)) as char
    }
}

/// The hexadecimal digits of a number, most significant first, no leading
/// zeros.
pub open spec fn hex_digits(n: nat) -> Seq<char>
    decreases n,
{
    if n < 16 {
        seq![hex_char(n as u8)]
    } else {
        hex_digits(n / 16).push(hex_char((n % 16) as u8))
    }
}

/// Zero-padding to a width of eight, as `{:08x}` renders an offset.
pub open spec fn offset_chars(off: nat) -> Seq<char> {
    if hex_digits(off).len() >= 8 {
        hex_digits(off)
    } else {
        Seq::new((8 - hex_digits(off).len()) as nat, |i: int| '0') + hex_digits(off)
    }
}

fn push_hex_digits(n: u64, out: &mut Vec<char>)
    ensures
        final(out)@ == old(out)@ + hex_digits(n as nat),
    decreases n,
{
    if n < 16 {
        out.push(hex_char_exec(n as u8));
        proof {
            assert(final(out)@ =~= old(out)@ + hex_digits(n as nat));
        }
    } else {
        assert(n / 16 < n);
        push_hex_digits(n / 16, out);
        assert(n % 16 < 16);
        out.push(hex_char_exec((n % 16) as u8));
        proof {
            assert(final(out)@ =~= old(out)@ + hex_digits(n as nat));
        }
    }
}

fn push_offset(off: u64, out: &mut Vec<char>)
    ensures
        final(out)@ == old(out)@ + offset_chars(off as nat),
{
    let mut digits: Vec<char> = Vec::new();
    push_hex_digits(off, &mut digits);
    proof {
        assert(digits@ =~= hex_digits(off as nat));
    }
    let d = digits.len();
    if d < 8 {
        let mut pad: usize = 8 - d;
        while pad > 0
            invariant
                pad <= 8 - d,
                d == digits@.len(),
                d < 8,
                out@ == old(out)@ + Seq::new((8 - d - pad) as nat, |i: int| '0'),
            decreases pad,
        {
            out.push('0');
            proof {
                assert(out@ =~= old(out)@ + Seq::new((8 - d - (pad - 1)) as nat, |i: int| '0'));
            }
            pad = pad - 1;
        }
        proof {
            assert(Seq::new((8 - d) as nat, |i: int| '0') =~= Seq::new(
                (8 - hex_digits(off as nat).len()) as nat,
                |i: int| '0',
            ));
        }
    }
    let ghost mid = out@;
    let mut k: usize = 0;
    while k < d
        invariant
            k <= d,
            d == digits@.len(),
            out@ == mid + digits@.take(k as int),
        decreases d - k,
    {
        out.push(digits[k]);
        proof {
            assert(out@ =~= mid + digits@.take(k + 1));
        }
        k = k + 1;
    }
    proof {
        assert(digits@.take(d as int) =~= digits@);
        assert(out@ =~= old(out)@ + offset_chars(off as nat));
    }
}

/// The sixteen cells of one dump line: hex pairs for the chunk's bytes,
/// blanks beyond it, an extra space before the ninth cell.
pub open spec fn cells(chunk: Seq<u8>, j: int) -> Seq<char>
    decreases 16 - j,
{
    if j >= 16 {
        Seq::empty()
    } else {
        (if j == 8 {
            seq![' ']
        } else {
            Seq::empty()
        }) + (if j < chunk.len() {
            seq![hex_char(chunk[j] / 16), hex_char(chunk[j] % 16), ' ']
        } else {
            seq![' ', ' ', ' ']
        }) + cells(chunk, j + 1)
    }
}

/// The printable-character column: bytes in the visible ASCII range as
/// themselves, a dot for the rest.
pub open spec fn printable_char(b: u8) -> char {
    if 0x20 <= b && b < 0x7f {
        b as char
    } else {
        '.'
    }
}

/// One line of the dump: the offset, the cells, the printable column.
pub open spec fn hex_line(chunk: Seq<u8>, off: nat) -> Seq<char> {
    offset_chars(off) + seq![' ', ' '] + cells(chunk, 0) + seq![' ', '|'] + chunk.map_values(
        |b: u8| printable_char(b),
    ) + seq!['|', '\n']
}

/// The dump from byte `start` on, sixteen bytes per line.
pub open spec fn hex_dump_from(bytes: Seq<u8>, start: int) -> Seq<char>
    decreases (if start <= bytes.len() {
        bytes.len() - start
    } else {
        0
    }),
    when 0 <= start
{
    if start >= bytes.len() {
        Seq::empty()
    } else {
        let end = if start + 16 <= bytes.len() {
            start + 16
        } else {
            bytes.len() as int
        };
        hex_line(bytes.subrange(start, end), start as nat) + hex_dump_from(bytes, start + 16)
    }
}

/// The classic hex dump of a byte string.
pub open spec fn hex_dump(bytes: Seq<u8>) -> Seq<char> {
    hex_dump_from(bytes, 0)
}

/// Render bytes as the classic dump: an offset, sixteen hex cells and the
/// printable column per line.
pub fn bytes_to_hex(bytes: &Vec<u8>) -> (r: String)
    ensures
        r@ == hex_dump(bytes@),
{
    let n = bytes.len();
    let mut out: Vec<char> = Vec::new();
    let mut st: usize = 0;
    proof {
        assert(Seq::<char>::empty() + hex_dump_from(bytes@, 0) =~= hex_dump_from(bytes@, 0));
    }
    while st < n
        invariant
            n == bytes@.len(),
            hex_dump(bytes@) == out@ + hex_dump_from(bytes@, st as int),
        decreases n - st,
    {
        let end = if n - st > 16 {
            st + 16
        } else {
            n
        };
        let ghost chunk = bytes@.subrange(st as int, end as int);
        let ghost base = out@;
        push_offset(st as u64, &mut out);
        out.push(' ');
        out.push(' ');
        proof {
            assert(out@ =~= base + offset_chars(st as nat) + seq![' ', ' ']);
        }
        let ghost cbase = out@;
        let mut j: usize = 0;
        while j < 16
            invariant
                j <= 16,
                st < n,
                n == bytes@.len(),
                end == (if n - st > 16 {
                    st + 16
                } else {
                    n as int
                }),
                chunk == bytes@.subrange(st as int, end as int),
                cbase + cells(chunk, 0) == out@ + cells(chunk, j as int),
            decreases 16 - j,
        {
            let ghost before = out@;
            if j == 8 {
                out.push(' ');
            }
            if j < end - st {
                let b = bytes[st + j];
                out.push(hex_char_exec(b / 16));
                out.push(hex_char_exec(b % 16));
                out.push(' ');
                proof {
                    assert(chunk[j as int] == bytes@[st + j]);
                    assert(out@ =~= before + (if j == 8 {
                        seq![' ']
                    } else {
                        Seq::<char>::empty()
                    }) + seq![hex_char(chunk[j as int] / 16), hex_char(chunk[j as int] % 16), ' ']);
                }
            } else {
                out.push(' ');
                out.push(' ');
                out.push(' ');
                proof {
                    assert(j >= chunk.len());
                    assert(out@ =~= before + (if j == 8 {
                        seq![' ']
                    } else {
                        Seq::<char>::empty()
                    }) + seq![' ', ' ', ' ']);
                }
            }
            j = j + 1;
        }
        proof {
            assert(cells(chunk, 16) =~= Seq::<char>::empty());
            assert(out@ + Seq::<char>::empty() =~= out@);
            assert(out@ =~= cbase + cells(chunk, 0));
        }
        out.push(' ');
        out.push('|');
        let ghost abase = out@;
        let mut k: usize = st;
        while k < end
            invariant
                st <= k <= end,
                end <= n,
                n == bytes@.len(),
                chunk == bytes@.subrange(st as int, end as int),
                out@ == abase + chunk.map_values(|b: u8| printable_char(b)).take(k - st),
            decreases end - k,
        {
            let b = bytes[k];
            let c = if 0x20 <= b && b < 0x7f {
                b as char
            } else {
                '.'
            };
            out.push(c);
            proof {
                assert(chunk[k - st] == bytes@[k as int]);
                assert(out@ =~= abase + chunk.map_values(|b: u8| printable_char(b)).take(
                    k - st + 1,
                ));
            }
            k = k + 1;
        }
        out.push('|');
        out.push('\n');
        proof {
            assert(chunk.map_values(|b: u8| printable_char(b)).take(end - st) =~= chunk.map_values(
                |b: u8| printable_char(b),
            ));
            assert(out@ =~= base + hex_line(chunk, st as nat));
            assert(hex_dump_from(bytes@, st as int) == hex_line(chunk, st as nat)
                + hex_dump_from(bytes@, st + 16));
            if n - st > 16 {
            } else {
                assert(hex_dump_from(bytes@, st + 16) =~= Seq::<char>::empty());
                assert(hex_dump_from(bytes@, end as int) =~= Seq::<char>::empty());
            }
        }
        st = if n - st > 16 {
            st + 16
        } else {
            n
        };
    }
    proof {
        assert(hex_dump_from(bytes@, n as int) =~= Seq::<char>::empty());
        assert(out@ + Seq::<char>::empty() =~= out@);
    }
    string_from_chars(&out)
}

/// What `String::from_utf8_lossy` reads a byte string as: a function of the
/// bytes alone.
pub uninterp spec fn lossy_of(b: Seq<u8>) -> Seq<char>;

/// Relies on `String::from_utf8_lossy`: deterministic in the bytes, and the
/// exact decoding where the bytes are valid UTF-8.
#[verifier::external_body]
fn utf8_lossy(v: &Vec<u8>) -> (r: String)
    ensures
        r@ == lossy_of(v@),
        vstd::utf8::valid_utf8(v@) ==> r@ == vstd::utf8::decode_utf8(v@),
{
    String::from_utf8_lossy(v.as_slice()).to_string()
}

/// The bytes a preview shows: the content, cut at the byte budget.
pub open spec fn preview_bytes(content: Seq<u8>, max_bytes: int) -> Seq<u8> {
    if content.len() <= max_bytes {
        content
    } else {
        content.take(max_bytes)
    }
}

/// The extension a preview reads off a path: the lowercased extension of
/// the path's final component.
pub open spec fn path_extension(path: Seq<char>) -> Option<Seq<char>> {
    match raw_ext(spec_basename_of(path)) {
        Some(e) => Some(lower_of(e)),
        None => None,
    }
}

/// Text until shown otherwise: no NUL byte among the first 8192 shown.
pub open spec fn looks_textual(b: Seq<u8>) -> bool {
    forall|i: int| 0 <= i < b.len() && i < 8192 ==> b[i] != 0
}

/// Assemble a preview of a file's content: classify by the path's
/// extension, falling back to a content sniff (text unless an early NUL
/// byte says binary); text is decoded lossily, binary is hex-dumped, and
/// the content is cut at `max_bytes`.
pub fn build_preview(path: String, content: Vec<u8>, total_size: u64, max_bytes: usize) -> (r:
    FilePreview)
    ensures
        r.path == path,
        r.size == total_size,
        r.truncated == (content@.len() > max_bytes),
        opt_str_view(r.extension) == path_extension(path@),
        ({
            let pb = preview_bytes(content@, max_bytes as int);
            let kind = preview_kind(path_extension(path@));
            &&& (kind == PreviewType::Code || (kind == PreviewType::Auto && looks_textual(pb)))
                ==> r.preview_type == PreviewType::Code && opt_str_view(r.text_content) == Some(
                lossy_of(pb),
            ) && r.hex_content is None
            &&& kind == PreviewType::Image ==> r.preview_type == PreviewType::Image
                && r.text_content is None && r.hex_content is None
            &&& (kind == PreviewType::Hex || (kind == PreviewType::Auto && !looks_textual(pb)))
                ==> r.preview_type == PreviewType::Hex && r.text_content is None && opt_str_view(
                r.hex_content,
            ) == Some(hex_dump(pb))
        }),
{
    let ghost original = content@;
    let truncated = content.len() > max_bytes;
    let mut shown = content;
    shown.truncate(max_bytes);
    proof {
        assert(shown@ =~= preview_bytes(original, max_bytes as int));
    }
    let base = basename_of(path.as_str());
    let extension = extension_of(base.as_str());
    let kind = match &extension {
        Some(e) => {
            if is_code_ext_exec(e.as_str()) {
                PreviewType::Code
            } else if is_image_ext_exec(e.as_str()) {
                PreviewType::Image
            } else if is_binary_ext_exec(e.as_str()) {
                PreviewType::Hex
            } else {
                PreviewType::Auto
            }
        },
        None => PreviewType::Auto,
    };
    proof {
        assert(opt_str_view(extension) == path_extension(path@));
        assert(kind == preview_kind(path_extension(path@)));
    }
    let mut is_text = true;
    let n = shown.len();
    let mut i: usize = 0;
    while i < n && i < 8192
        invariant
            i <= n,
            n == shown@.len(),
            is_text == (forall|k: int| 0 <= k < i && k < 8192 ==> shown@[k] != 0),
        decreases n - i,
    {
        if shown[i] == 0 {
            is_text = false;
            proof {
                assert(!(forall|k: int| 0 <= k < i + 1 && k < 8192 ==> shown@[k] != 0));
            }
        }
        i = i + 1;
    }
    proof {
        assert(is_text == looks_textual(shown@));
    }
    let (final_type, text_content, hex_content): (PreviewType, Option<String>, Option<String>) =
        match kind {
        PreviewType::Code => (PreviewType::Code, Some(utf8_lossy(&shown)), None),
        PreviewType::Image => (PreviewType::Image, None, None),
        PreviewType::Hex => (PreviewType::Hex, None, Some(bytes_to_hex(&shown))),
        PreviewType::Auto => {
            if is_text {
                (PreviewType::Code, Some(utf8_lossy(&shown)), None)
            } else {
                (PreviewType::Hex, None, Some(bytes_to_hex(&shown)))
            }
        },
    };
    FilePreview {
        path,
        preview_type: final_type,
        size: total_size,
        text_content,
        hex_content,
        truncated,
        extension,
    }
}

} // verus!
