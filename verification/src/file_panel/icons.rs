//! Icon names for file rows.
use vstd::prelude::*;

use crate::file_panel::model::Kind;
use crate::text::{ascii_lower, chars_of, in_list, lower_ascii, one_of, string_of_range};

verus! {

pub const GENERIC_FILE_ICON: &'static str = "text-x-generic-symbolic";

pub open spec fn script_exts() -> Seq<&'static str> {
    seq![
        "rs", "ts", "tsx", "js", "jsx", "py", "go", "cpp", "cc", "cxx", "c", "h", "hpp", "java",
        "kt", "swift", "rb", "php", "lua", "zig", "sh", "bash", "fish", "zsh",
    ]
}

pub open spec fn html_exts() -> Seq<&'static str> {
    seq!["html", "htm", "xhtml"]
}

pub open spec fn image_exts() -> Seq<&'static str> {
    seq!["png", "jpg", "jpeg", "gif", "bmp", "webp", "tiff", "ico", "avif"]
}

pub open spec fn archive_exts() -> Seq<&'static str> {
    seq!["zip", "tar", "gz", "bz2", "xz", "7z", "rar", "tgz", "zst"]
}

pub open spec fn audio_exts() -> Seq<&'static str> {
    seq!["mp3", "wav", "flac", "ogg", "m4a", "aac", "opus"]
}

pub open spec fn video_exts() -> Seq<&'static str> {
    seq!["mp4", "mkv", "webm", "mov", "avi", "wmv", "flv"]
}

/// The icon for a file extension, compared without regard to ASCII case.
pub open spec fn icon_spec(ext: Seq<char>) -> Seq<char> {
    let e = ascii_lower(ext);
    if in_list(e, script_exts()) {
        "text-x-script-symbolic"@
    } else if in_list(e, html_exts()) {
        "text-html-symbolic"@
    } else if in_list(e, image_exts()) {
        "image-x-generic-symbolic"@
    } else if in_list(e, archive_exts()) {
        "package-x-generic-symbolic"@
    } else if e == "pdf"@ {
        "application-pdf-symbolic"@
    } else if in_list(e, audio_exts()) {
        "audio-x-generic-symbolic"@
    } else if in_list(e, video_exts()) {
        "video-x-generic-symbolic"@
    } else {
        GENERIC_FILE_ICON@
    }
}

pub fn icon_for_extension(ext: &str) -> (res: &'static str)
    ensures
        res@ == icon_spec(ext@),
{
    let e = lower_ascii(&chars_of(ext));
    let script: [&str; 24] = [
        "rs", "ts", "tsx", "js", "jsx", "py", "go", "cpp", "cc", "cxx", "c", "h", "hpp", "java",
        "kt", "swift", "rb", "php", "lua", "zig", "sh", "bash", "fish", "zsh",
    ];
    assert(script@ == script_exts());
    let html: [&str; 3] = ["html", "htm", "xhtml"];
    assert(html@ == html_exts());
    let image: [&str; 9] = ["png", "jpg", "jpeg", "gif", "bmp", "webp", "tiff", "ico", "avif"];
    assert(image@ == image_exts());
    let archive: [&str; 9] = ["zip", "tar", "gz", "bz2", "xz", "7z", "rar", "tgz", "zst"];
    assert(archive@ == archive_exts());
    let audio: [&str; 7] = ["mp3", "wav", "flac", "ogg", "m4a", "aac", "opus"];
    assert(audio@ == audio_exts());
    let video: [&str; 7] = ["mp4", "mkv", "webm", "mov", "avi", "wmv", "flv"];
    assert(video@ == video_exts());
    if one_of(&e, &script) {
        "text-x-script-symbolic"
    } else if one_of(&e, &html) {
        "text-html-symbolic"
    } else if one_of(&e, &image) {
        "image-x-generic-symbolic"
    } else if one_of(&e, &archive) {
        "package-x-generic-symbolic"
    } else if crate::text::is_lit(&e, "pdf") {
        "application-pdf-symbolic"
    } else if one_of(&e, &audio) {
        "audio-x-generic-symbolic"
    } else if one_of(&e, &video) {
        "video-x-generic-symbolic"
    } else {
        GENERIC_FILE_ICON
    }
}


/// What follows the last `.` of `name`, or nothing when it has none.
pub open spec fn after_last_dot(name: Seq<char>) -> Seq<char>
    decreases name.len(),
{
    if name.len() == 0 {
        Seq::empty()
    } else if name.last() == '.' {
        Seq::empty()
    } else {
        let rest = after_last_dot(name.drop_last());
        if has_dot(name.drop_last()) {
            rest.push(name.last())
        } else {
            Seq::empty()
        }
    }
}

pub open spec fn has_dot(name: Seq<char>) -> bool {
    exists|i: int| 0 <= i < name.len() && name[i] == '.'
}

/// The icon a dragged row shows: a folder for a directory, else the icon of
/// the extension after the last `.` of its name.
pub open spec fn drag_icon_spec(kind: Kind, name: Seq<char>) -> Seq<char> {
    if kind == Kind::Dir {
        "folder-symbolic"@
    } else {
        icon_spec(after_last_dot(name))
    }
}

proof fn lemma_after_last_dot(name: Seq<char>, k: int)
    requires
        0 <= k < name.len(),
        name[k] == '.',
        forall|j: int| k < j < name.len() ==> name[j] != '.',
    ensures
        after_last_dot(name) == name.subrange(k + 1, name.len() as int),
    decreases name.len(),
{
    if k < name.len() - 1 {
        let d = name.drop_last();
        assert(d[k] == '.');
        assert(has_dot(d));
        lemma_after_last_dot(d, k);
        assert(name.subrange(k + 1, name.len() as int) =~= d.subrange(k + 1, d.len() as int).push(name.last()));
    } else {
        assert(name.subrange(k + 1, name.len() as int) =~= Seq::<char>::empty());
    }
}

proof fn lemma_no_dot(name: Seq<char>)
    requires
        !has_dot(name),
    ensures
        after_last_dot(name) == Seq::<char>::empty(),
    decreases name.len(),
{
    if name.len() > 0 {
        assert(name.last() == name[name.len() - 1]);
        assert(!has_dot(name.drop_last())) by {
            if has_dot(name.drop_last()) {
                let i = choose|i: int| 0 <= i < name.drop_last().len() && name.drop_last()[i] == '.';
                assert(name[i] == '.');
            }
        }
    }
}

pub fn drag_icon_name(kind: Kind, name: &str) -> (res: &'static str)
    ensures
        res@ == drag_icon_spec(kind, name@),
{
    if kind == Kind::Dir {
        return "folder-symbolic";
    }
    let c = chars_of(name);
    let mut i = c.len();
    while i > 0 && c[i - 1] != '.'
        invariant
            i <= c.len(),
            forall|j: int| i <= j < c.len() ==> c@[j] != '.',
        decreases i,
    {
        i -= 1;
    }
    if i == 0 {
        proof {
            assert(!has_dot(name@)) by {
                if has_dot(name@) {
                    let j = choose|j: int| 0 <= j < name@.len() && name@[j] == '.';
                    assert(c@[j] != '.');
                }
            }
            lemma_no_dot(name@);
            reveal_strlit("");
            assert(""@ =~= Seq::<char>::empty());
            assert(after_last_dot(name@) == ""@);
        }
        return icon_for_extension("");
    }
    proof {
        lemma_after_last_dot(name@, i - 1);
    }
    let ext = string_of_range(&c, i, c.len());
    icon_for_extension(ext.as_str())
}

} // verus!
