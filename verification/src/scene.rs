use vstd::prelude::*;

verus! {

/// Whether `bytes` begin with `magic`.
pub open spec fn starts_with(bytes: Seq<u8>, magic: Seq<u8>) -> bool {
    magic.len() <= bytes.len() && bytes.subrange(0, magic.len() as int) == magic
}

/// A zip archive begins with a local file header, an end of central directory record, or
/// a spanning marker: `PK` followed by 3,4 / 5,6 / 7,8.
pub open spec fn is_zip_data(bytes: Seq<u8>) -> bool {
    ||| starts_with(bytes, seq![0x50u8, 0x4bu8, 0x03u8, 0x04u8])
    ||| starts_with(bytes, seq![0x50u8, 0x4bu8, 0x05u8, 0x06u8])
    ||| starts_with(bytes, seq![0x50u8, 0x4bu8, 0x07u8, 0x08u8])
}

/// Whether a scene file's bytes are a zip archive, judged by its first bytes.
pub fn is_zip(bytes: &[u8]) -> (r: bool)
    ensures
        r == is_zip_data(bytes@),
{
    if bytes.len() < 4 || bytes[0] != 0x50u8 || bytes[1] != 0x4bu8 {
        return false;
    }
    let (c, d) = (bytes[2], bytes[3]);
    let r = (c == 0x03u8 && d == 0x04u8) || (c == 0x05u8 && d == 0x06u8) || (c == 0x07u8 && d
        == 0x08u8);
    proof {
        let head = bytes@.subrange(0, 4);
        assert(head =~= seq![0x50u8, 0x4bu8, c, d]);
    }
    r
}

/// Why an entry could not be read out of a zip archive.
#[derive(Clone, Debug)]
pub enum ZipEntryError {
    /// The bytes are no readable archive; the text is the zip reader's message.
    Archive(String),
    /// The archive has no entry of that name that can be opened.
    NoEntry,
    /// The entry could not be decompressed; the text is the reader's message.
    Read(String),
}

/// Whether `zip::ZipArchive::new` reads `bytes` as an archive.
pub uninterp spec fn zip_archive_opens(bytes: Seq<u8>) -> bool;

/// Whether `ZipArchive::by_name` finds (and can open) the entry `name` of the archive
/// `bytes`.
pub uninterp spec fn zip_entry_found(bytes: Seq<u8>, name: Seq<char>) -> bool;

/// The contents of the entry `name` of the archive `bytes` as reading it to its end gives
/// them, or `None` where reading fails.
pub uninterp spec fn zip_entry_contents(bytes: Seq<u8>, name: Seq<char>) -> Option<Seq<u8>>;

/// Reads entry `name` out of the zip archive `bytes` with `zip::ZipArchive::new` over an
/// in-memory cursor, `ZipArchive::by_name`, and `Read::read_to_end` on the entry. Claimed:
/// each step's outcome depends on the bytes (and the name) alone; the error says which
/// step failed, and the result is the entry's contents when all three succeed. The text
/// of the reader's messages is left unsaid.
#[verifier::external_body]
fn zip_entry(bytes: &[u8], name: &str) -> (r: Result<Vec<u8>, ZipEntryError>)
    ensures
        match r {
            Ok(v) => zip_archive_opens(bytes@) && zip_entry_found(bytes@, name@)
                && zip_entry_contents(bytes@, name@) == Some(v@),
            Err(ZipEntryError::Archive(_)) => !zip_archive_opens(bytes@),
            Err(ZipEntryError::NoEntry) => zip_archive_opens(bytes@) && !zip_entry_found(
                bytes@,
                name@,
            ),
            Err(ZipEntryError::Read(_)) => zip_archive_opens(bytes@) && zip_entry_found(bytes@, name@)
                && zip_entry_contents(bytes@, name@) is None,
        },
{
    let mut archive = match zip::ZipArchive::new(std::io::Cursor::new(bytes)) {
        Ok(archive) => archive,
        Err(error) => return Err(ZipEntryError::Archive(error.to_string())),
    };
    let mut file = match archive.by_name(name) {
        Ok(file) => file,
        Err(_) => return Err(ZipEntryError::NoEntry),
    };
    let mut out = Vec::new();
    match std::io::Read::read_to_end(&mut file, &mut out) {
        Ok(_) => Ok(out),
        Err(error) => Err(ZipEntryError::Read(error.to_string())),
    }
}

/// What reading the root script of the zipped scene `bytes` gives: its contents, or that
/// the archive is unreadable, lacks a root `scene.phn`, or cannot decompress it.
pub open spec fn zipped_scene_read(bytes: Seq<u8>) -> Option<Seq<u8>> {
    if zip_archive_opens(bytes) && zip_entry_found(bytes, "scene.phn"@) {
        zip_entry_contents(bytes, "scene.phn"@)
    } else {
        None
    }
}

/// Whether the zipped scene `bytes` is a readable archive without a root `scene.phn`.
pub open spec fn lacks_root_script(bytes: Seq<u8>) -> bool {
    zip_archive_opens(bytes) && !zip_entry_found(bytes, "scene.phn"@)
}

/// The message for a zipped scene without a root script.
pub open spec fn no_root_script_message() -> Seq<char> {
    "zip has no root scene.phn"@
}

/// The scene source a zip read gives: the entry's bytes, or the reader's message, or a
/// message naming the missing root script.
pub open spec fn entry_source(entry: Result<Seq<u8>, ZipEntryError>) -> Result<Seq<u8>, Seq<char>> {
    match entry {
        Ok(v) => Ok(v),
        Err(ZipEntryError::Archive(m)) => Err(m@),
        Err(ZipEntryError::NoEntry) => Err(no_root_script_message()),
        Err(ZipEntryError::Read(m)) => Err(m@),
    }
}

/// The view of a zip read's result.
pub open spec fn entry_view(entry: Result<Vec<u8>, ZipEntryError>) -> Result<Seq<u8>, ZipEntryError> {
    match entry {
        Ok(v) => Ok(v@),
        Err(e) => Err(e),
    }
}

/// Turns the result of reading the root script out of a zipped scene into the scene
/// source or an error message.
pub fn scene_source_from_entry(entry: Result<Vec<u8>, ZipEntryError>) -> (r: Result<Vec<u8>, String>)
    ensures
        match r {
            Ok(v) => entry_source(entry_view(entry)) == Ok::<Seq<u8>, Seq<char>>(v@),
            Err(m) => entry_source(entry_view(entry)) == Err::<Seq<u8>, Seq<char>>(m@),
        },
{
    match entry {
        Ok(v) => Ok(v),
        Err(ZipEntryError::Archive(m)) => Err(m),
        Err(ZipEntryError::NoEntry) => Err("zip has no root scene.phn".to_owned()),
        Err(ZipEntryError::Read(m)) => Err(m),
    }
}

/// The script source held by a scene file: the file itself, or, for a zip archive, its
/// root `scene.phn` entry. Fails exactly when the file is a zip archive whose root script
/// cannot be read; a readable archive without that entry fails with
/// "zip has no root scene.phn".
pub fn source_bytes(bytes: &[u8]) -> (r: Result<Vec<u8>, String>)
    ensures
        !is_zip_data(bytes@) ==> (r matches Ok(v) && v@ == bytes@),
        is_zip_data(bytes@) ==> match r {
            Ok(v) => zipped_scene_read(bytes@) == Some(v@),
            Err(m) => zipped_scene_read(bytes@) is None && (lacks_root_script(bytes@) ==> m@
                == no_root_script_message()),
        },
{
    if is_zip(bytes) {
        scene_source_from_entry(zip_entry(bytes, "scene.phn"))
    } else {
        Ok(vstd::slice::slice_to_vec(bytes))
    }
}

/// The script source of a scene file that was read from disk (or the message of why it
/// could not be read): the reading error, or what `source_bytes` makes of the bytes.
pub fn read_source(file: Result<Vec<u8>, String>) -> (r: Result<Vec<u8>, String>)
    ensures
        match file {
            Err(m) => r matches Err(n) && n@ == m@,
            Ok(bytes) => {
                &&& !is_zip_data(bytes@) ==> (r matches Ok(v) && v@ == bytes@)
                &&& is_zip_data(bytes@) ==> match r {
                    Ok(v) => zipped_scene_read(bytes@) == Some(v@),
                    Err(m) => zipped_scene_read(bytes@) is None && (lacks_root_script(bytes@) ==> m@
                        == no_root_script_message()),
                }
            },
        },
{
    match file {
        Err(message) => Err(message),
        Ok(bytes) => source_bytes(bytes.as_slice()),
    }
}

/// The parser's messages, one per line.
pub open spec fn joined_lines(messages: Seq<Seq<char>>) -> Seq<char>
    decreases messages.len(),
{
    if messages.len() == 0 {
        Seq::empty()
    } else if messages.len() == 1 {
        messages[0]
    } else {
        joined_lines(messages.drop_last()) + seq!['\n'] + messages.last()
    }
}

/// The outcome of parsing a scene's source: the program, or the parser's messages joined
/// into one, a line each.
pub fn parse_scene<P>(parsed: Result<P, Vec<String>>) -> (r: Result<P, String>)
    ensures
        match parsed {
            Ok(p) => r matches Ok(q) && q == p,
            Err(messages) => r matches Err(m) && m@ == joined_lines(messages@.map_values(|s: String| s@)),
        },
{
    match parsed {
        Ok(program) => Ok(program),
        Err(messages) => {
            let ghost views = messages@.map_values(|s: String| s@);
            let mut out = String::new();
            let mut i: usize = 0;
            while i < messages.len()
                invariant
                    0 <= i <= messages@.len(),
                    views == messages@.map_values(|s: String| s@),
                    out@ == joined_lines(views.subrange(0, i as int)),
                decreases messages@.len() - i,
            {
                proof {
                    reveal_strlit("\n");
                    assert(views.subrange(0, i + 1).drop_last() =~= views.subrange(0, i as int));
                    assert(views.subrange(0, i + 1).last() == messages@[i as int]@);
                    if i == 0 {
                        assert(views.subrange(0, 1) =~= seq![views[0]]);
                    }
                }
                if i > 0 {
                    out.append("\n");
                }
                out.append(messages[i].as_str());
                i = i + 1;
            }
            proof {
                assert(views.subrange(0, messages@.len() as int) =~= views);
            }
            Err(out)
        },
    }
}

} // verus!
