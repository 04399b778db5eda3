//! The binary inspector: which format a target uses, and the raw library
//! list that each format yields.

use vstd::prelude::*;
use mach_object::{LoadCommand as Lc, OFile};
use std::io::Cursor;
use crate::error::LinkageError;
use crate::text::{
    find, find_from, has_prefix, is_space, lemma_find_bounds, split, split_on, starts_with, str_eq, trim,
    trim_end, trim_end_of, trim_of, trim_start_of,
};

verus! {

#[verifier::external_type_specification]
#[verifier::external_body]
pub struct ExGoblinError(goblin::error::Error);

/// How the libraries of a binary are found.
#[derive(PartialEq, Eq, Structural, Clone, Copy, Debug)]
pub enum BinaryFormat {
    /// Mach-O load commands, read on any host.
    MachO,
    /// The output of the `ldd` resolver, on a Linux host only.
    Elf,
    /// PE import tables, read on any host.
    Pe,
}

/// The format used by each recognised target triple.
pub open spec fn format_of(t: Seq<char>) -> Option<BinaryFormat> {
    if t == "i686-apple-darwin"@ || t == "x86_64-apple-darwin"@ || t == "aarch64-apple-darwin"@ {
        Some(BinaryFormat::MachO)
    } else if t == "i686-unknown-linux-gnu"@ || t == "x86_64-unknown-linux-gnu"@
        || t == "aarch64-unknown-linux-gnu"@ || t == "i686-unknown-linux-musl"@
        || t == "x86_64-unknown-linux-musl"@ || t == "aarch64-unknown-linux-musl"@ {
        Some(BinaryFormat::Elf)
    } else if t == "i686-pc-windows-msvc"@ || t == "x86_64-pc-windows-msvc"@ || t == "aarch64-pc-windows-msvc"@ {
        Some(BinaryFormat::Pe)
    } else {
        None
    }
}

/// The format of a target triple, if it is recognised.
pub fn format_for_target(target: &str) -> (r: Option<BinaryFormat>)
    ensures
        r == format_of(target@),
{
    if str_eq(target, "i686-apple-darwin") || str_eq(target, "x86_64-apple-darwin") || str_eq(target, "aarch64-apple-darwin") {
        Some(BinaryFormat::MachO)
    } else if str_eq(target, "i686-unknown-linux-gnu") || str_eq(target, "x86_64-unknown-linux-gnu")
        || str_eq(target, "aarch64-unknown-linux-gnu") || str_eq(target, "i686-unknown-linux-musl")
        || str_eq(target, "x86_64-unknown-linux-musl") || str_eq(target, "aarch64-unknown-linux-musl") {
        Some(BinaryFormat::Elf)
    } else if str_eq(target, "i686-pc-windows-msvc") || str_eq(target, "x86_64-pc-windows-msvc") || str_eq(target, "aarch64-pc-windows-msvc") {
        Some(BinaryFormat::Pe)
    } else {
        None
    }
}

/// Decides how a binary built for `target` is inspected on a host running
/// `host_os`, before anything is read or run: an unrecognised target is an
/// unsupported binary, and a Linux target needs a Linux host.
pub fn inspection_for(target: &str, host_os: &str) -> (r: Result<BinaryFormat, LinkageError>)
    ensures
        format_of(target@) is None <==> r matches Err(LinkageError::UnsupportedBinary),
        format_of(target@) == Some(BinaryFormat::Elf) && host_os@ != "linux"@ <==> r matches Err(
            LinkageError::InvalidOs { .. },
        ),
        r matches Err(LinkageError::InvalidOs { host, target: t }) ==> host@ == host_os@ && t@ == target@,
        r is Ok <==> (format_of(target@) is Some && (format_of(target@) == Some(BinaryFormat::Elf) ==> host_os@ == "linux"@)),
        r matches Ok(f) ==> Some(f) == format_of(target@) && (f == BinaryFormat::Elf ==> host_os@ == "linux"@),
{
    match format_for_target(target) {
        None => Err(LinkageError::UnsupportedBinary),
        Some(BinaryFormat::Elf) => if str_eq(host_os, "linux") {
            Ok(BinaryFormat::Elf)
        } else {
            Err(LinkageError::InvalidOs { host: String::from_str(host_os), target: String::from_str(target) })
        },
        Some(f) => Ok(f),
    }
}

/// The path that an `ldd` line of the form `name => path (address)`
/// resolves to: what follows the first arrow, up to the next space.
pub open spec fn arrow_target(l: Seq<char>) -> Option<Seq<char>> {
    match find_from(l, " => "@, 0) {
        Some(k) => {
            let rest = l.subrange(k + 4, l.len() as int);
            Some(match find_from(rest, " "@, 0) {
                Some(j) => rest.subrange(0, j),
                None => rest,
            })
        },
        None => None,
    }
}

/// The libraries listed by the lines of `ldd`'s output, in order: a line
/// saying there is no dynamic linkage ends the list, the kernel's virtual
/// object is left out, and so is any line without an arrow.
pub open spec fn ldd_paths(lines: Seq<Seq<char>>) -> Seq<Seq<char>>
    decreases lines.len(),
{
    if lines.len() == 0 {
        Seq::empty()
    } else {
        let l = trim_of(lines[0]);
        if has_prefix(l, "not a dynamic executable"@) || has_prefix(l, "statically linked"@) {
            Seq::empty()
        } else if has_prefix(l, "linux-vdso"@) {
            ldd_paths(lines.drop_first())
        } else {
            match arrow_target(l) {
                Some(p) => seq![p] + ldd_paths(lines.drop_first()),
                None => ldd_paths(lines.drop_first()),
            }
        }
    }
}

/// The libraries named by the whole of `ldd`'s output.
pub open spec fn ldd_output_paths(out: Seq<char>) -> Seq<Seq<char>> {
    ldd_paths(split_on(trim_end_of(out), "\n"@))
}

/// Dropping trailing white space keeps a prefix that does not end in white space.
proof fn lemma_trim_end_keeps_prefix(s: Seq<char>, p: Seq<char>)
    requires
        has_prefix(s, p),
        p.len() > 0,
        !is_space(p.last()),
    ensures
        has_prefix(trim_end_of(s), p),
    decreases s.len(),
{
    if s.len() > 0 && is_space(s.last()) {
        assert(s.len() > p.len()) by {
            if s.len() == p.len() {
                assert(s.subrange(0, p.len() as int)[p.len() - 1] == s.last());
            }
        }
        assert(s.drop_last().subrange(0, p.len() as int) =~= s.subrange(0, p.len() as int));
        lemma_trim_end_keeps_prefix(s.drop_last(), p);
    }
}

/// A search for `c` from `i` passes over a stretch of other characters.
proof fn lemma_find_skips(s: Seq<char>, c: char, i: int, m: int)
    requires
        0 <= i <= m <= s.len(),
        forall|j: int| i <= j < m ==> s[j] != c,
    ensures
        find_from(s, seq![c], i) == find_from(s, seq![c], m),
    decreases m - i,
{
    if i < m {
        assert(s.subrange(i, i + 1)[0] != seq![c][0]);
        lemma_find_skips(s, c, i + 1, m);
    }
}

/// Output of `ldd` that begins by saying the binary is statically linked
/// names no library.
pub proof fn lemma_statically_linked_output_is_empty(out: Seq<char>)
    requires
        has_prefix(out, "statically linked"@),
    ensures
        ldd_output_paths(out) == Seq::<Seq<char>>::empty(),
{
    let p = "statically linked"@;
    reveal_strlit("statically linked");
    reveal_strlit("\n");
    assert("\n"@ =~= seq!['\n']);
    lemma_trim_end_keeps_prefix(out, p);
    let t = trim_end_of(out);
    assert forall|j: int| 0 <= j < p.len() implies t[j] != '\n' by {
        assert(t.subrange(0, p.len() as int)[j] == p[j]);
    }
    lemma_find_skips(t, '\n', 0, p.len() as int);
    lemma_find_bounds(t, "\n"@, p.len() as int);
    lemma_find_bounds(t, "\n"@, 0);
    let lines = split_on(t, "\n"@);
    let first = match find_from(t, "\n"@, 0) {
        Some(k) => t.subrange(0, k),
        None => t,
    };
    assert(lines.len() > 0 && lines[0] == first);
    assert(has_prefix(first, p)) by {
        if let Some(k) = find_from(t, "\n"@, 0) {
            assert(first.subrange(0, p.len() as int) =~= t.subrange(0, p.len() as int));
        }
    }
    lemma_trim_end_keeps_prefix(first, p);
    let e = trim_end_of(first);
    assert(e.len() > 0 && e[0] == 's') by {
        assert(e.subrange(0, p.len() as int)[0] == p[0]);
    }
    assert(trim_start_of(e) == e);
}

fn arrow_target_of(l: &str) -> (r: Option<String>)
    ensures
        match r {
            Some(p) => arrow_target(l@) == Some(p@),
            None => arrow_target(l@) is None,
        },
{
    proof {
        reveal_strlit(" => ");
        lemma_find_bounds(l@, " => "@, 0);
    }
    let n = l.unicode_len();
    match find(l, " => ", 0) {
        Some(k) => {
            let rest = l.substring_char(k + 4, n);
            proof {
                lemma_find_bounds(rest@, " "@, 0);
            }
            match find(rest, " ", 0) {
                Some(j) => Some(String::from_str(rest.substring_char(0, j))),
                None => Some(String::from_str(rest)),
            }
        },
        None => None,
    }
}

/// The libraries that `ldd` reports, as it resolved them, from its
/// standard output; its exit status is not consulted.
pub fn ldd_libraries(stdout: &str) -> (r: Vec<String>)
    ensures
        r@.map_values(|s: String| s@) == ldd_output_paths(stdout@),
{
    proof {
        reveal_strlit("\n");
    }
    let lines = split(trim_end(stdout), "\n");
    let ghost ls = lines@.map_values(|s: String| s@);
    let mut out: Vec<String> = Vec::new();
    let n = lines.len();
    assert(ls.subrange(0, n as int) =~= ls);
    assert(out@.map_values(|s: String| s@) + ldd_paths(ls) =~= ldd_paths(ls));
    let mut i: usize = 0;
    while i < n
        invariant
            n == lines@.len(),
            ls == lines@.map_values(|s: String| s@),
            ls == split_on(trim_end_of(stdout@), "\n"@),
            i <= n,
            ldd_paths(ls) == out@.map_values(|s: String| s@) + ldd_paths(ls.subrange(i as int, n as int)),
        decreases n - i,
    {
        let ghost rest = ls.subrange(i as int, n as int);
        assert(rest.drop_first() =~= ls.subrange(i + 1, n as int));
        assert(rest[0] == lines@[i as int]@);
        let l = trim(lines[i].as_str());
        if starts_with(l, "not a dynamic executable") || starts_with(l, "statically linked") {
            assert(out@.map_values(|s: String| s@) + Seq::<Seq<char>>::empty() =~= out@.map_values(|s: String| s@));
            return out;
        }
        if !starts_with(l, "linux-vdso") {
            match arrow_target_of(l) {
                Some(p) => {
                    let ghost before = out@.map_values(|s: String| s@);
                    out.push(p);
                    assert(out@.map_values(|s: String| s@) =~= before.push(p@));
                    assert(before + (seq![p@] + ldd_paths(rest.drop_first())) =~= before.push(p@) + ldd_paths(rest.drop_first()));
                },
                None => {},
            }
        }
        i += 1;
    }
    assert(ls.subrange(n as int, n as int) =~= Seq::<Seq<char>>::empty());
    assert(out@.map_values(|s: String| s@) + Seq::<Seq<char>>::empty() =~= out@.map_values(|s: String| s@));
    out
}

/// A Mach-O load command, as far as the inspection reads it.
#[derive(PartialEq, Eq, Structural, Clone, Copy, Debug)]
pub enum CommandKind {
    /// The image's own install name.
    IdDylib,
    /// A library loaded at launch.
    LoadDylib,
    /// A library loaded at launch if present.
    LoadWeakDylib,
    /// A library whose symbols are re-exported.
    ReexportDylib,
    /// A library that depends on this image in turn.
    LoadUpwardDylib,
    /// A library loaded on first use.
    LazyLoadDylib,
    /// Any command that names no library.
    Other,
}

/// Whether a load command names a dynamic library.
pub open spec fn names_dylib(k: CommandKind) -> bool {
    k != CommandKind::Other
}

/// The load commands of a Mach-O file, with the library each names; `None`
/// where the bytes are not a single Mach-O image.
pub uninterp spec fn macho_commands_of(bytes: Seq<u8>) -> Option<Seq<(CommandKind, Seq<char>)>>;

pub open spec fn commands_view(v: Seq<(CommandKind, String)>) -> Seq<(CommandKind, Seq<char>)> {
    v.map_values(|c: (CommandKind, String)| (c.0, c.1@))
}

/// The 32-bit word at `i`, in big- or little-endian order.
pub open spec fn word_at(b: Seq<u8>, i: int, big: bool) -> int {
    if big {
        b[i] * 16777216 + b[i + 1] * 65536 + b[i + 2] * 256 + b[i + 3]
    } else {
        b[i] + b[i + 1] * 256 + b[i + 2] * 65536 + b[i + 3] * 16777216
    }
}

/// The byte order and header size of a thin Mach-O image, by its magic.
pub open spec fn macho_layout(b: Seq<u8>) -> Option<(bool, int)> {
    if b.len() < 4 || b[1] != 0xfa && b[1] != 0xed {
        None
    } else if b[0] == 0xce && b[1] == 0xfa && b[2] == 0xed && b[3] == 0xfe {
        Some((false, 28))
    } else if b[0] == 0xcf && b[1] == 0xfa && b[2] == 0xed && b[3] == 0xfe {
        Some((false, 32))
    } else if b[0] == 0xfe && b[1] == 0xed && b[2] == 0xfa && b[3] == 0xce {
        Some((true, 28))
    } else if b[0] == 0xfe && b[1] == 0xed && b[2] == 0xfa && b[3] == 0xcf {
        Some((true, 32))
    } else {
        None
    }
}

/// The least offset of the string that a load command carries, counted
/// from the command's start; 0 for a command that carries none.
pub open spec fn string_floor(cmd: int) -> int {
    if cmd == 0xc || cmd == 0xd || cmd == 0x80000018 || cmd == 0x8000001f || cmd == 0x80000023 || cmd == 0x20 {
        24
    } else if cmd == 0x6 || cmd == 0x7 {
        20
    } else if cmd == 0xe || cmd == 0xf || cmd == 0x12 || cmd == 0x13 || cmd == 0x14 || cmd == 0x15
        || cmd == 0x27 || cmd == 0x8000001c {
        12
    } else {
        0
    }
}

/// The `n` load commands from `pos` on each lie within the bytes, and each
/// string they carry starts inside its command, after its fixed fields.
pub open spec fn commands_sound(b: Seq<u8>, pos: int, n: nat, big: bool) -> bool
    decreases n,
{
    if n == 0 {
        true
    } else {
        let size = word_at(b, pos + 4, big);
        let floor = string_floor(word_at(b, pos, big));
        &&& 0 <= pos && pos + 8 <= b.len()
        &&& 8 <= size && pos + size <= b.len()
        &&& floor > 0 ==> pos + 12 <= b.len() && floor <= word_at(b, pos + 8, big) <= size
        &&& commands_sound(b, pos + size, (n - 1) as nat, big)
    }
}

/// The bytes are a thin Mach-O image whose load-command table is sound.
pub open spec fn macho_table_sound(b: Seq<u8>) -> bool {
    match macho_layout(b) {
        Some((big, h)) => h <= b.len() && commands_sound(b, h, word_at(b, 16, big) as nat, big),
        None => false,
    }
}

fn read_word(b: &[u8], i: usize, big: bool) -> (r: u64)
    requires
        i + 4 <= b@.len(),
    ensures
        r == word_at(b@, i as int, big),
        r < 4294967296,
{
    let b0 = b[i] as u64;
    let b1 = b[i + 1] as u64;
    let b2 = b[i + 2] as u64;
    let b3 = b[i + 3] as u64;
    if big {
        b0 * 16777216 + b1 * 65536 + b2 * 256 + b3
    } else {
        b0 + b1 * 256 + b2 * 65536 + b3 * 16777216
    }
}

/// Whether the bytes are a thin Mach-O image with a sound load-command table.
pub fn macho_table_ok(b: &[u8]) -> (r: bool)
    ensures
        r == macho_table_sound(b@),
{
    let len = b.len();
    if len < 4 || b[1] != 0xfa && b[1] != 0xed {
        return false;
    }
    let (big, h): (bool, usize) = if b[0] == 0xce && b[1] == 0xfa && b[2] == 0xed && b[3] == 0xfe {
        (false, 28)
    } else if b[0] == 0xcf && b[1] == 0xfa && b[2] == 0xed && b[3] == 0xfe {
        (false, 32)
    } else if b[0] == 0xfe && b[1] == 0xed && b[2] == 0xfa && b[3] == 0xce {
        (true, 28)
    } else if b[0] == 0xfe && b[1] == 0xed && b[2] == 0xfa && b[3] == 0xcf {
        (true, 32)
    } else {
        return false;
    };
    if h > len {
        return false;
    }
    let n = read_word(b, 16, big);
    let mut pos: usize = h;
    let mut k: u64 = 0;
    while k < n
        invariant
            len == b@.len(),
            macho_layout(b@) == Some((big, h as int)),
            h <= len,
            n == word_at(b@, 16, big),
            k <= n,
            pos <= len,
            macho_table_sound(b@) == commands_sound(b@, pos as int, (n - k) as nat, big),
        decreases n - k,
    {
        let ghost rest = (n - k) as nat;
        assert(rest > 0);
        if len - pos < 8 {
            return false;
        }
        let cmd = read_word(b, pos, big);
        let size = read_word(b, pos + 4, big);
        if size < 8 || size > (len - pos) as u64 {
            return false;
        }
        let floor: u64 = if cmd == 0xc || cmd == 0xd || cmd == 0x80000018 || cmd == 0x8000001f || cmd == 0x80000023
            || cmd == 0x20 {
            24
        } else if cmd == 0x6 || cmd == 0x7 {
            20
        } else if cmd == 0xe || cmd == 0xf || cmd == 0x12 || cmd == 0x13 || cmd == 0x14 || cmd == 0x15 || cmd == 0x27
            || cmd == 0x8000001c {
            12
        } else {
            0
        };
        assert(floor == string_floor(cmd as int));
        if floor > 0 {
            if len - pos < 12 {
                return false;
            }
            let off = read_word(b, pos + 8, big);
            if off < floor || off > size {
                return false;
            }
        }
        assert((rest - 1) as nat == (n - (k + 1)) as nat);
        pos = pos + size as usize;
        k = k + 1;
    }
    true
}

/// Relies on mach_object::OFile::parse, on a thin image whose load-command
/// table is sound (read on a little-endian host): the load commands, each
/// with the name of the library it refers to.
#[verifier::external_body]
fn macho_commands(bytes: &[u8]) -> (r: Option<Vec<(CommandKind, String)>>)
    requires
        macho_table_sound(bytes@),
    ensures
        r is Some <==> macho_commands_of(bytes@) is Some,
        r matches Some(v) ==> macho_commands_of(bytes@) == Some(commands_view(v@)),
{
    let Ok(OFile::MachFile { commands, .. }) = OFile::parse(&mut Cursor::new(bytes)) else { return None };
    Some(commands.iter().map(|c| match c.command() {
        Lc::IdDyLib(d) => (CommandKind::IdDylib, d.name.to_string()),
        Lc::LoadDyLib(d) => (CommandKind::LoadDylib, d.name.to_string()),
        Lc::LoadWeakDyLib(d) => (CommandKind::LoadWeakDylib, d.name.to_string()),
        Lc::ReexportDyLib(d) => (CommandKind::ReexportDylib, d.name.to_string()),
        Lc::LoadUpwardDylib(d) => (CommandKind::LoadUpwardDylib, d.name.to_string()),
        Lc::LazyLoadDylib(d) => (CommandKind::LazyLoadDylib, d.name.to_string()),
        _ => (CommandKind::Other, String::new()),
    }).collect())
}

/// The libraries named by the dylib load commands, in order.
pub open spec fn dylib_names(cs: Seq<(CommandKind, Seq<char>)>) -> Seq<Seq<char>>
    decreases cs.len(),
{
    if cs.len() == 0 {
        Seq::empty()
    } else {
        let rest = dylib_names(cs.drop_last());
        if names_dylib(cs.last().0) {
            rest.push(cs.last().1)
        } else {
            rest
        }
    }
}

/// The libraries that the load commands of a Mach-O image name, the
/// image's own id included; empty where the bytes are not a thin Mach-O
/// image with a sound load-command table, or do not parse.
pub open spec fn macho_paths(bytes: Seq<u8>) -> Seq<Seq<char>> {
    if !macho_table_sound(bytes) {
        Seq::empty()
    } else {
        match macho_commands_of(bytes) {
            Some(cs) => dylib_names(cs),
            None => Seq::empty(),
        }
    }
}

/// The libraries named by the dylib commands among `commands`.
pub fn dylib_libraries(commands: Vec<(CommandKind, String)>) -> (r: Vec<String>)
    ensures
        r@.map_values(|s: String| s@) == dylib_names(commands_view(commands@)),
{
    let ghost cs = commands_view(commands@);
    let mut out: Vec<String> = Vec::new();
    let n = commands.len();
    let mut i: usize = 0;
    while i < n
        invariant
            n == commands@.len(),
            cs == commands_view(commands@),
            i <= n,
            out@.map_values(|s: String| s@) == dylib_names(cs.subrange(0, i as int)),
        decreases n - i,
    {
        assert(cs.subrange(0, i + 1).drop_last() =~= cs.subrange(0, i as int));
        let ghost before = out@.map_values(|s: String| s@);
        assert(cs.subrange(0, i + 1).last() == cs[i as int]);
        if commands[i].0 != CommandKind::Other {
            let name = commands[i].1.clone();
            out.push(name);
            assert(out@.map_values(|s: String| s@) =~= before.push(cs[i as int].1));
        }
        i += 1;
    }
    assert(cs.subrange(0, n as int) =~= cs);
    out
}

/// The libraries of a Mach-O image; none where it does not parse.
pub fn macho_libraries(bytes: &[u8]) -> (r: Vec<String>)
    ensures
        r@.map_values(|s: String| s@) == macho_paths(bytes@),
        !macho_table_sound(bytes@) || macho_commands_of(bytes@) is None ==> r@.len() == 0,
{
    if !macho_table_ok(bytes) {
        return Vec::new();
    }
    match macho_commands(bytes) {
        Some(cs) => dylib_libraries(cs),
        None => Vec::new(),
    }
}

/// The bytes begin with the DOS header magic `MZ` that every PE image has.
pub open spec fn has_dos_magic(bytes: Seq<u8>) -> bool {
    bytes.len() >= 2 && bytes[0] == 0x4d && bytes[1] == 0x5a
}

/// What goblin's PE parser makes of a file that begins with `MZ`: `None`
/// where it fails to parse, else the imported module names.
pub uninterp spec fn pe_imports_of(bytes: Seq<u8>) -> Option<Seq<Seq<char>>>;

/// Relies on goblin::pe::PE::parse, on bytes that begin with the DOS magic
/// only: the parse error, or the image's imported libraries.
#[verifier::external_body]
fn pe_imports(bytes: &[u8]) -> (r: Result<Vec<String>, goblin::error::Error>)
    requires
        has_dos_magic(bytes@),
    ensures
        r is Err <==> pe_imports_of(bytes@) is None,
        r matches Ok(v) ==> pe_imports_of(bytes@) == Some(v@.map_values(|s: String| s@)),
{
    let pe = goblin::pe::PE::parse(bytes)?;
    Ok(pe.libraries.into_iter().map(|s| s.to_owned()).collect())
}

/// The imported libraries of a PE image. Bytes without the DOS magic are an
/// unsupported binary; a PE parse failure is the parser's error.
pub fn pe_libraries(bytes: &[u8]) -> (r: Result<Vec<String>, LinkageError>)
    ensures
        !has_dos_magic(bytes@) <==> r matches Err(LinkageError::UnsupportedBinary),
        has_dos_magic(bytes@) ==> (pe_imports_of(bytes@) is None <==> r matches Err(LinkageError::Object(_))),
        r matches Ok(v) ==> has_dos_magic(bytes@) && pe_imports_of(bytes@) == Some(v@.map_values(|s: String| s@)),
        has_dos_magic(bytes@) && pe_imports_of(bytes@) is Some ==> r is Ok,
{
    if !(bytes.len() >= 2 && bytes[0] == 0x4d && bytes[1] == 0x5a) {
        return Err(LinkageError::UnsupportedBinary);
    }
    match pe_imports(bytes) {
        Ok(v) => Ok(v),
        Err(e) => Err(LinkageError::Object(e)),
    }
}

} // verus!
