//! Where attachments are kept.
use crate::primitives;
use crate::primitives::fresh_uuid;
use crate::text;
use crate::text::{decimal_text, replace, same, starts_with};
use vstd::prelude::*;

verus! {

broadcast use vstd::seq_lib::group_seq_properties;

/// A file in a directory.
pub struct FilePath {
    pub dir: String,
    pub name: String,
}

/// What a file stands for.
#[verifier::ext_equal]
pub struct FilePathView {
    pub dir: Seq<char>,
    pub name: Seq<char>,
}

impl View for FilePath {
    type V = FilePathView;

    open spec fn view(&self) -> FilePathView {
        FilePathView { dir: self.dir@, name: self.name@ }
    }
}

/// The forms in which an attachment can be on disk.
#[derive(Debug, Clone, Copy, PartialEq, Eq, Structural)]
pub enum FileForm {
    /// Sealed.
    Encrypted,
    /// As it is.
    Plain,
    /// As it is, under the ending of old versions.
    Legacy,
}

/// The ending of the file of an attachment.
pub open spec fn ending(form: FileForm) -> Seq<char> {
    match form {
        FileForm::Encrypted => ".enc"@,
        FileForm::Plain => ".png"@,
        FileForm::Legacy => ".bin"@,
    }
}

/// The path of a file in a directory.
pub open spec fn in_directory(dir: Seq<char>, file: Seq<char>) -> Seq<char> {
    dir + seq!['/'] + file
}

/// A fresh name for an attachment, or nothing where the machine gives no random
/// bytes.
pub fn fresh_name() -> (r: Option<String>)
    ensures
        r matches Some(name) ==> primitives::uuid_shaped(name@),
{
    fresh_uuid()
}

/// The directory of the attachments.
pub struct StorageManager {
    pub attachments_dir: String,
}

impl StorageManager {
    /// Attachments in a directory.
    pub fn new(attachments_dir: String) -> (r: StorageManager)
        ensures
            r.attachments_dir@ == attachments_dir@,
    {
        StorageManager { attachments_dir }
    }

    /// The file of an attachment in a form.
    pub fn file_in(&self, uuid: &str, form: FileForm) -> (r: FilePath)
        ensures
            r@ == (FilePathView { dir: self.attachments_dir@, name: uuid@ + ending(form) }),
    {
        let mut name = uuid.to_owned();
        match form {
            FileForm::Encrypted => name.append(".enc"),
            FileForm::Plain => name.append(".png"),
            FileForm::Legacy => name.append(".bin"),
        }
        FilePath { dir: self.attachments_dir.clone(), name }
    }

    /// The file of an attachment.
    pub fn get_attachment_path(&self, uuid: &str) -> (r: FilePath)
        ensures
            r@ == (FilePathView { dir: self.attachments_dir@, name: uuid@ + ".png"@ }),
    {
        self.file_in(uuid, FileForm::Plain)
    }

    /// The file of an attachment of an old version.
    pub fn get_legacy_attachment_path(&self, uuid: &str) -> (r: FilePath)
        ensures
            r@ == (FilePathView { dir: self.attachments_dir@, name: uuid@ + ".bin"@ }),
    {
        self.file_in(uuid, FileForm::Legacy)
    }

    /// The file of a sealed attachment.
    pub fn get_encrypted_attachment_path(&self, uuid: &str) -> (r: FilePath)
        ensures
            r@ == (FilePathView { dir: self.attachments_dir@, name: uuid@ + ".enc"@ }),
    {
        self.file_in(uuid, FileForm::Encrypted)
    }

    /// The file of an attachment shrunk to a width.
    pub fn shrunk_attachment_path(&self, uuid: &str, width: u32) -> (r: FilePath)
        ensures
            r@ == (FilePathView {
                dir: self.attachments_dir@,
                name: uuid@ + "-w"@ + text::decimal(width as nat) + ".jpg"@,
            }),
    {
        let mut name = uuid.to_owned();
        name.append("-w");
        name.append(decimal_text(width as u128).as_str());
        name.append(".jpg");
        FilePath { dir: self.attachments_dir.clone(), name }
    }
}

/// The form in which an attachment is read, given those that are there: sealed
/// before plain, and plain before the old one.
pub open spec fn form_read(encrypted: bool, plain: bool, legacy: bool) -> Option<FileForm> {
    if encrypted {
        Some(FileForm::Encrypted)
    } else if plain {
        Some(FileForm::Plain)
    } else if legacy {
        Some(FileForm::Legacy)
    } else {
        None
    }
}

/// The form in which an attachment is read, given those that are there.
pub fn form_to_read(encrypted: bool, plain: bool, legacy: bool) -> (r: Option<FileForm>)
    ensures
        r == form_read(encrypted, plain, legacy),
{
    if encrypted {
        Some(FileForm::Encrypted)
    } else if plain {
        Some(FileForm::Plain)
    } else if legacy {
        Some(FileForm::Legacy)
    } else {
        None
    }
}

/// The form in which an attachment is streamed: the old one only where it is
/// the only one there.
pub fn form_to_stream(plain: bool, legacy: bool) -> (r: FileForm)
    ensures
        r == (if !plain && legacy {
            FileForm::Legacy
        } else {
            FileForm::Plain
        }),
{
    if !plain && legacy {
        FileForm::Legacy
    } else {
        FileForm::Plain
    }
}

/// The forms in which an attachment is deleted: plain and old, as far as they
/// are there. A sealed one stays.
pub fn forms_to_delete(plain: bool, legacy: bool) -> (r: Vec<FileForm>)
    ensures
        r@ == (if plain {
            seq![FileForm::Plain]
        } else {
            Seq::empty()
        }) + (if legacy {
            seq![FileForm::Legacy]
        } else {
            Seq::empty()
        }),
{
    let mut out: Vec<FileForm> = Vec::new();
    if plain {
        out.push(FileForm::Plain);
    }
    if legacy {
        out.push(FileForm::Legacy);
    }
    assert(out@ =~= (if plain {
        seq![FileForm::Plain]
    } else {
        Seq::empty()
    }) + (if legacy {
        seq![FileForm::Legacy]
    } else {
        Seq::empty()
    }));
    out
}

/// What is shown as the file of a clip.
#[derive(Debug, Clone, Copy, PartialEq, Eq, Structural)]
pub enum ShownFile {
    /// The plain file.
    Plain,
    /// The plain file, which the old one is to be renamed to first.
    RenamedLegacy,
    /// The old file, though it is not there.
    Legacy,
}

/// What is shown as the file of a clip, given those that are there.
pub fn file_to_show(plain: bool, legacy: bool) -> (r: ShownFile)
    ensures
        r == (if plain {
            ShownFile::Plain
        } else if legacy {
            ShownFile::RenamedLegacy
        } else {
            ShownFile::Legacy
        }),
{
    if plain {
        ShownFile::Plain
    } else if legacy {
        ShownFile::RenamedLegacy
    } else {
        ShownFile::Legacy
    }
}

/// The name under which an attachment is exported at a time.
pub open spec fn exported_as(destination: Seq<char>, millis: nat) -> Seq<char> {
    (if destination == "share"@ {
        "cipherclip-share-"@
    } else {
        "cipherclip-"@
    }) + text::decimal(millis) + ".png"@
}

/// Whether an attachment is exported to be shared.
pub fn is_for_sharing(destination_type: &str) -> (r: bool)
    ensures
        r == (destination_type@ == "share"@),
{
    same(destination_type, "share")
}

/// The name under which an attachment is exported at a time.
pub fn export_name_at(destination_type: &str, millis: u128) -> (r: String)
    ensures
        r@ == exported_as(destination_type@, millis as nat),
{
    let mut name = if is_for_sharing(destination_type) {
        "cipherclip-share-".to_owned()
    } else {
        "cipherclip-".to_owned()
    };
    name.append(decimal_text(millis).as_str());
    name.append(".png");
    name
}

/// The name under which an attachment is exported now; nothing where the clock
/// of the machine is set to before 1970.
pub fn export_name(destination_type: &str) -> (r: Option<String>)
    ensures
        r matches Some(name) ==> exists|millis: nat|
            name@ == #[trigger] exported_as(destination_type@, millis),
{
    match primitives::now_millis() {
        Some(millis) => Some(export_name_at(destination_type, millis)),
        None => None,
    }
}

/// The file URI of a path, which may be one already.
pub open spec fn uri_of(path: Seq<char>, windows: bool) -> Seq<char> {
    if "file://"@.is_prefix_of(path) {
        path
    } else if windows {
        "file:///"@ + text::replaced(path, '\\', '/')
    } else {
        "file://"@ + path
    }
}

/// The file URI of a path.
pub fn file_uri(path: &str, windows: bool) -> (r: String)
    ensures
        r@ == uri_of(path@, windows),
{
    if starts_with(path, "file://") {
        path.to_owned()
    } else if windows {
        let mut uri = "file:///".to_owned();
        uri.append(replace(path, '\\', '/').as_str());
        uri
    } else {
        let mut uri = "file://".to_owned();
        uri.append(path);
        uri
    }
}

/// A file URI stays as it is.
pub proof fn uri_of_a_uri_is_itself(path: Seq<char>, windows: bool, again: bool)
    ensures
        uri_of(uri_of(path, windows), again) == uri_of(path, windows),
{
    reveal_strlit("file://");
    reveal_strlit("file:///");
    let uri = uri_of(path, windows);
    assert(uri.subrange(0, 7) =~= "file://"@);
}

/// Different attachments have different files, and so have the forms of one.
pub proof fn attachment_files_differ(dir: Seq<char>, name: Seq<char>, form: FileForm, other: Seq<char>, as_form: FileForm)
    requires
        name != other || form != as_form,
    ensures
        name + ending(form) != other + ending(as_form),
        in_directory(dir, name + ending(form)) != in_directory(dir, other + ending(as_form)),
{
    reveal_strlit(".enc");
    reveal_strlit(".png");
    reveal_strlit(".bin");
    let one = name + ending(form);
    let two = other + ending(as_form);
    assert(ending(form).len() == 4 && ending(as_form).len() == 4);
    if one == two {
        assert(one.take(one.len() - 4) =~= name);
        assert(two.take(two.len() - 4) =~= other);
        assert(one.skip(one.len() - 4) =~= ending(form));
        assert(two.skip(two.len() - 4) =~= ending(as_form));
        assert(ending(form)[1] == ending(as_form)[1]);
        assert(form == as_form);
    }
    let n = dir.len() as int + 1;
    if in_directory(dir, one) == in_directory(dir, two) {
        assert(in_directory(dir, one).skip(n) =~= one);
        assert(in_directory(dir, two).skip(n) =~= two);
    }
}

/// An attachment is in the directory it was given, under its own name with the
/// ending of the form behind it.
pub proof fn attachments_are_in_their_directory(dir: String, m: StorageManager, uuid: &str, form: FileForm, r: FilePath)
    requires
        call_ensures(StorageManager::new, (dir,), m),
        call_ensures(StorageManager::file_in, (&m, uuid, form), r),
    ensures
        r.dir@ == dir@,
        r.name@.len() == uuid@.len() + 4,
        r.name@.take(uuid@.len() as int) == uuid@,
        r.name@.skip(uuid@.len() as int) == (if form == FileForm::Encrypted {
            ".enc"@
        } else if form == FileForm::Plain {
            ".png"@
        } else {
            ".bin"@
        }),
{
    reveal_strlit(".enc");
    reveal_strlit(".png");
    reveal_strlit(".bin");
    assert(r.name@.take(uuid@.len() as int) =~= uuid@);
    assert(r.name@.skip(uuid@.len() as int) =~= ending(form));
}

/// The plain, the old and the sealed file of an attachment are those of its
/// forms.
pub proof fn paths_are_those_of_the_forms(m: StorageManager, uuid: &str, plain: FilePath, legacy: FilePath, sealed: FilePath)
    requires
        call_ensures(StorageManager::get_attachment_path, (&m, uuid), plain),
        call_ensures(StorageManager::get_legacy_attachment_path, (&m, uuid), legacy),
        call_ensures(StorageManager::get_encrypted_attachment_path, (&m, uuid), sealed),
    ensures
        plain.dir@ == m.attachments_dir@ && plain.name@ == uuid@ + ".png"@,
        legacy.dir@ == m.attachments_dir@ && legacy.name@ == uuid@ + ".bin"@,
        sealed.dir@ == m.attachments_dir@ && sealed.name@ == uuid@ + ".enc"@,
{
}

/// A shrunk attachment is beside the attachment, and has the width in its name:
/// the shrunk files of one attachment differ where their widths do.
pub proof fn shrunk_files_name_their_width(m: StorageManager, uuid: &str, width: u32, r: FilePath, other: u32, q: FilePath)
    requires
        call_ensures(StorageManager::shrunk_attachment_path, (&m, uuid, width), r),
        call_ensures(StorageManager::shrunk_attachment_path, (&m, uuid, other), q),
    ensures
        r.dir@ == m.attachments_dir@,
        r.name@ == uuid@ + "-w"@ + text::decimal(width as nat) + ".jpg"@,
        width != other ==> r.name@ != q.name@,
{
    reveal_strlit("-w");
    reveal_strlit(".jpg");
    let n = uuid@.len() as int + 2;
    let a = text::decimal(width as nat);
    let b = text::decimal(other as nat);
    assert(r.name@.subrange(n, r.name@.len() - 4) =~= a);
    assert(q.name@.subrange(n, q.name@.len() - 4) =~= b);
    text::decimal_reads_back(width as nat);
    text::decimal_reads_back(other as nat);
}

/// An attachment is read in a form that is there, exactly where there is one:
/// sealed where it can be, and in the old form only where it must be.
pub proof fn attachment_is_read_where_it_is(encrypted: bool, plain: bool, legacy: bool, r: Option<FileForm>)
    requires
        call_ensures(form_to_read, (encrypted, plain, legacy), r),
    ensures
        r is None <==> !encrypted && !plain && !legacy,
        r == Some(FileForm::Encrypted) <==> encrypted,
        r == Some(FileForm::Plain) <==> plain && !encrypted,
        r == Some(FileForm::Legacy) <==> legacy && !plain && !encrypted,
{
}

/// An attachment is streamed as the old file only where that is the only one
/// there, and never sealed.
pub proof fn attachment_is_streamed_plain(plain: bool, legacy: bool, r: FileForm)
    requires
        call_ensures(form_to_stream, (plain, legacy), r),
    ensures
        r == FileForm::Plain || r == FileForm::Legacy,
        r == FileForm::Legacy <==> legacy && !plain,
{
}

/// The plain and the old file of an attachment are deleted exactly where they
/// are there, each once, and the sealed one never.
pub proof fn sealed_attachments_are_not_deleted(plain: bool, legacy: bool, r: Vec<FileForm>)
    requires
        call_ensures(forms_to_delete, (plain, legacy), r),
    ensures
        r@.contains(FileForm::Plain) <==> plain,
        r@.contains(FileForm::Legacy) <==> legacy,
        !r@.contains(FileForm::Encrypted),
        r@.no_duplicates(),
{
    if plain {
        assert(r@[0] == FileForm::Plain);
    }
    if legacy {
        assert(r@.last() == FileForm::Legacy);
    }
}

/// The plain file of a clip is shown where it is there, or where the old one can
/// be renamed to it; the old one is shown only where neither is there.
pub proof fn plain_files_are_shown(plain: bool, legacy: bool, r: ShownFile)
    requires
        call_ensures(file_to_show, (plain, legacy), r),
    ensures
        r == ShownFile::Plain <==> plain,
        r == ShownFile::RenamedLegacy <==> legacy && !plain,
        r == ShownFile::Legacy <==> !legacy && !plain,
{
}

/// An exported attachment has the time in its name, behind a word that says
/// whether it is shared: two exports at different times have different names.
pub proof fn exports_name_their_time(destination: &str, sharing: bool, millis: u128, r: String, other: u128, q: String)
    requires
        call_ensures(is_for_sharing, (destination,), sharing),
        call_ensures(export_name_at, (destination, millis), r),
        call_ensures(export_name_at, (destination, other), q),
    ensures
        sharing <==> destination@ == "share"@,
        sharing ==> r@ == "cipherclip-share-"@ + text::decimal(millis as nat) + ".png"@,
        !sharing ==> r@ == "cipherclip-"@ + text::decimal(millis as nat) + ".png"@,
        millis != other ==> r@ != q@,
{
    reveal_strlit("cipherclip-share-");
    reveal_strlit("cipherclip-");
    reveal_strlit(".png");
    let n: int = if sharing {
        17
    } else {
        11
    };
    assert(r@.subrange(n, r@.len() - 4) =~= text::decimal(millis as nat));
    assert(q@.subrange(n, q@.len() - 4) =~= text::decimal(other as nat));
    text::decimal_reads_back(millis as nat);
    text::decimal_reads_back(other as nat);
}

/// An attachment that is exported now has a time in its name, and the word for
/// what it is exported for.
pub proof fn exports_of_now_name_a_time(destination: &str, r: Option<String>)
    requires
        call_ensures(export_name, (destination,), r),
    ensures
        r matches Some(name) ==> exists|millis: nat|
            name@ == (if destination@ == "share"@ {
                "cipherclip-share-"@
            } else {
                "cipherclip-"@
            }) + #[trigger] text::decimal(millis) + ".png"@,
{
    if r is Some {
        let millis = choose|millis: nat| r->0@ == #[trigger] exported_as(destination@, millis);
        let written = text::decimal(millis);
        assert(r->0@ == (if destination@ == "share"@ {
            "cipherclip-share-"@
        } else {
            "cipherclip-"@
        }) + written + ".png"@);
    }
}

/// A URI starts with file:// and ends with the path, which on Windows has every
/// backslash made a slash; a path that is a URI already is its own.
pub proof fn uris_end_with_their_path(path: &str, windows: bool, r: String, i: int)
    requires
        call_ensures(file_uri, (path, windows), r),
    ensures
        "file://"@.is_prefix_of(r@),
        "file://"@.is_prefix_of(path@) ==> r@ == path@,
        !"file://"@.is_prefix_of(path@) && !windows ==> r@ == "file://"@ + path@,
        !"file://"@.is_prefix_of(path@) && windows ==> r@.len() == path@.len() + 8 && r@.take(8) == "file:///"@,
        !"file://"@.is_prefix_of(path@) && windows && 0 <= i < path@.len() ==> r@[i + 8] == (if path@[i] == '\\' {
            '/'
        } else {
            path@[i]
        }),
{
    reveal_strlit("file://");
    reveal_strlit("file:///");
    if !"file://"@.is_prefix_of(path@) {
        assert(r@.subrange(0, 7) =~= "file://"@);
        if windows {
            assert(r@.take(8) =~= "file:///"@);
        }
    }
}

} // verus!
