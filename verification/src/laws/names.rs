//! Laws of [`try_files`](crate::try_files) on what names mean: escapes, extensions, and
//! scripts within a path.

use vstd::prelude::*;
use vstd::utf8::{
    encode_scalar, encode_utf8, has_width_1_encoding, leading_byte_width_1, leading_byte_width_2,
    leading_byte_width_3, leading_byte_width_4, valid_utf8,
};

use crate::laws::paths::decoded;
use crate::text::{
    join, lemma_encode_concat, lemma_join_holds, lemma_join_split, lemma_split_first,
    lemma_split_free, lemma_split_join, lemma_split_nonempty, lower, split,
};
use crate::try_files::{
    all_escaped, content_type, extension, hex_value, last_component,
    law_unescaped_segments_decode_to_themselves, lemma_all_escaped, lemma_unescape_joined,
    lower_extension, path_info_of, percent_decoded, php_index, php_segment, php_source, php_split,
    plain_segment, static_path, unescape,
};

verus! {

/// A hexadecimal digit.
pub open spec fn is_hex(c: char) -> bool {
    '0' <= c <= '9' || 'a' <= c <= 'f' || 'A' <= c <= 'F'
}

proof fn lemma_hex_char(c: char)
    ensures
        hex_value(encode_scalar(c as u32)[0]) is Some ==> is_hex(c) && encode_scalar(c as u32).len() == 1,
{
    let s = c as u32;
    assert(leading_byte_width_2(s) >= 0xc0 && leading_byte_width_3(s) >= 0xe0
        && leading_byte_width_4(s) >= 0xf0) by (bit_vector);
    assert(has_width_1_encoding(s) ==> leading_byte_width_1(s) == s) by (bit_vector);
}

/// A `%` that no two hexadecimal digits follow spoils a text, wherever it stands; so do
/// escapes of bytes that are no text.
pub proof fn law_malformed_escapes_spoil_a_text(
    a: Seq<char>,
    b: Seq<char>,
    raw: Seq<char>,
    bytes: Seq<u8>,
)
    requires
        percent_decoded(a) is Some,
        b.len() < 2 || !is_hex(b[0]) || !is_hex(b[1]),
    ensures
        percent_decoded(a + seq!['%'] + b) is None,
        all_escaped(raw, bytes) && !valid_utf8(bytes) ==> percent_decoded(raw) is None,
{
    let tail = seq!['%'] + b;
    let s = '%' as u32;
    assert(s == 0x25 ==> has_width_1_encoding(s) && leading_byte_width_1(s) == 0x25) by (bit_vector);
    assert(encode_scalar(s) =~= seq![0x25u8]);
    assert(tail.drop_first() =~= b);
    let rest = encode_utf8(b);
    let bad = encode_utf8(tail);
    assert(bad =~= seq![0x25u8] + rest);
    if b.len() > 0 {
        let first = encode_scalar(b[0] as u32);
        lemma_hex_char(b[0]);
        assert(rest == first + encode_utf8(b.drop_first()));
        assert(bad[1] == first[0]);
        if hex_value(bad[1]) is Some {
            if b.len() > 1 {
                let c = b.drop_first();
                lemma_hex_char(c[0]);
                let second = encode_scalar(c[0] as u32);
                assert(encode_utf8(c) == second + encode_utf8(c.drop_first()));
                assert(bad[2] == second[0]);
            } else {
                assert(encode_utf8(b.drop_first()) =~= Seq::empty());
                assert(bad.len() == 2);
            }
        }
    } else {
        assert(rest =~= Seq::empty());
        assert(bad.len() == 1);
    }
    assert(unescape(bad) is None);
    assert(a + seq!['%'] + b =~= a + tail);
    lemma_encode_concat(a, tail);
    lemma_unescape_joined(encode_utf8(a), bad);
    if all_escaped(raw, bytes) {
        lemma_all_escaped(raw, bytes);
    }
}

proof fn lemma_split_grown(s: Seq<char>, piece: Seq<char>, sep: char)
    requires
        !piece.contains(sep),
    ensures
        split(s.push(sep) + piece, sep) == split(s, sep).push(piece),
{
    lemma_split_nonempty(s, sep);
    lemma_split_free(s, sep);
    lemma_join_split(s, sep);
    let parts = split(s, sep).push(piece);
    assert(parts.drop_last() =~= split(s, sep));
    assert forall|i: int| 0 <= i < parts.len() implies !(#[trigger] parts[i]).contains(sep) by {
        if i < parts.len() - 1 {
            assert(parts[i] == split(s, sep)[i]);
        }
    }
    lemma_split_join(parts, sep);
}

/// Whether `path` is the file `name` in some directory, or on its own.
pub open spec fn is_file(path: Seq<char>, dir: Seq<char>, name: Seq<char>) -> bool {
    path == name || path == dir + seq!['/'] + name
}

proof fn lemma_last_name(path: Seq<char>, dir: Seq<char>, name: Seq<char>)
    requires
        is_file(path, dir, name),
        name.len() > 0,
        !name.contains('/'),
        name != seq!['.'],
    ensures
        last_component(split(path, '/')) == Some(name),
{
    reveal_strlit(".");
    assert("."@ =~= seq!['.']);
    if path == name {
        lemma_split_first(name, Seq::empty(), '/');
        assert(last_component(seq![name]) == Some(name));
    } else {
        assert(path =~= dir.push('/') + name);
        lemma_split_grown(dir, name, '/');
        assert(split(path, '/').last() == name);
    }
}

/// The extension of a file is what follows the last dot of its name, in whatever directory
/// it is; a name without a dot, or with one only at its beginning, has none.
pub proof fn law_extensions(
    path: Seq<char>,
    dir: Seq<char>,
    stem: Seq<char>,
    ext: Seq<char>,
    other: Seq<char>,
    bare: Seq<char>,
)
    requires
        stem.len() > 0 && ext.len() > 0 && bare.len() > 0,
        !stem.contains('/') && !ext.contains('/') && !bare.contains('/'),
        !ext.contains('.') && !bare.contains('.'),
        is_file(path, dir, stem + seq!['.'] + ext),
        is_file(other, dir, bare) || is_file(other, dir, seq!['.'] + bare),
    ensures
        extension(path) == Some(ext),
        lower_extension(path) == Some(lower(ext)),
        extension(other) is None,
        lower_extension(other) is None,
{
    reveal_strlit("..");
    let name = stem + seq!['.'] + ext;
    assert(name =~= stem.push('.') + ext);
    assert(!name.contains('/')) by {
        if name.contains('/') {
            let k = choose|k: int| 0 <= k < name.len() && name[k] == '/';
            if k < stem.len() {
                assert(stem[k] == '/');
            } else if k > stem.len() {
                assert(ext[k - stem.len() - 1] == '/');
            }
        }
    }
    assert(name.len() > 2);
    lemma_last_name(path, dir, name);
    lemma_split_grown(stem, ext, '.');
    lemma_split_nonempty(stem, '.');
    lemma_join_split(stem, '.');
    let pieces = split(name, '.');
    assert(pieces.len() == 2 ==> split(stem, '.').len() == 1 && pieces[0] == split(stem, '.')[0]);
    if split(stem, '.').len() == 1 {
        assert(split(stem, '.') =~= seq![split(stem, '.')[0]]);
        assert(join(split(stem, '.'), '.') == split(stem, '.')[0]);
    }
    let dotted = seq!['.'] + bare;
    assert(!dotted.contains('/')) by {
        if dotted.contains('/') {
            let k = choose|k: int| 0 <= k < dotted.len() && dotted[k] == '/';
            assert(bare[k - 1] == '/');
        }
    }
    assert(bare.contains(bare[0]));
    assert(bare[0] != '.');
    let none = Seq::<char>::empty();
    if is_file(other, dir, bare) {
        lemma_last_name(other, dir, bare);
        lemma_split_first(bare, none, '.');
    } else {
        assert(dotted[1] == bare[0]);
        lemma_last_name(other, dir, dotted);
        assert(dotted =~= none.push('.') + bare);
        lemma_split_grown(none, bare, '.');
        assert(split(none, '.') =~= seq![none]);
        assert(split(dotted, '.').len() == 2 && split(dotted, '.')[0] == none);
    }
}

/// A file is PHP source exactly where its extension, in any case, is one of those that PHP
/// is known by.
pub proof fn law_php_sources(path: Seq<char>)
    ensures
        extension(path) is None ==> !php_source(path),
        extension(path) is Some ==> (php_source(path) <==> {
            let ext = lower(extension(path)->0);
            ||| ext == "php"@
            ||| ext == "phtml"@
            ||| ext == "php3"@
            ||| ext == "php4"@
            ||| ext == "php5"@
            ||| ext == "php7"@
            ||| ext == "phps"@
            ||| ext == "pht"@
        }),
{
}

/// The types of the files that a site is made of, by their extension in any case; a file
/// without one is just bytes.
pub proof fn law_content_types(path: Seq<char>)
    ensures
        extension(path) is None ==> content_type(path) == "application/octet-stream"@,
        extension(path) is Some ==> {
            let ext = lower(extension(path)->0);
            let kind = content_type(path);
            &&& ext == "html"@ || ext == "htm"@ ==> kind == "text/html; charset=utf-8"@
            &&& ext == "css"@ ==> kind == "text/css; charset=utf-8"@
            &&& ext == "js"@ || ext == "mjs"@ || ext == "cjs"@ ==> kind
                == "text/javascript; charset=utf-8"@
            &&& ext == "json"@ || ext == "map"@ ==> kind == "application/json"@
            &&& ext == "webmanifest"@ ==> kind == "application/manifest+json"@
            &&& ext == "svg"@ ==> kind == "image/svg+xml"@
            &&& ext == "ico"@ ==> kind == "image/x-icon"@
            &&& ext == "png"@ ==> kind == "image/png"@
            &&& ext == "jpg"@ || ext == "jpeg"@ ==> kind == "image/jpeg"@
            &&& ext == "gif"@ ==> kind == "image/gif"@
            &&& ext == "webp"@ ==> kind == "image/webp"@
            &&& ext == "avif"@ ==> kind == "image/avif"@
            &&& ext == "bmp"@ ==> kind == "image/bmp"@
            &&& ext == "woff"@ ==> kind == "font/woff"@
            &&& ext == "woff2"@ ==> kind == "font/woff2"@
            &&& ext == "ttf"@ ==> kind == "font/ttf"@
            &&& ext == "otf"@ ==> kind == "font/otf"@
            &&& ext == "eot"@ ==> kind == "application/vnd.ms-fontobject"@
            &&& ext == "txt"@ ==> kind == "text/plain; charset=utf-8"@
            &&& ext == "xml"@ ==> kind == "application/xml"@
            &&& ext == "pdf"@ ==> kind == "application/pdf"@
            &&& ext == "wasm"@ ==> kind == "application/wasm"@
            &&& ext == "mp4"@ ==> kind == "video/mp4"@
            &&& ext == "webm"@ ==> kind == "video/webm"@
            &&& ext == "mp3"@ ==> kind == "audio/mpeg"@
            &&& ext == "wav"@ ==> kind == "audio/wav"@
            &&& ext == "zip"@ ==> kind == "application/zip"@
            &&& ext != "html"@ && ext != "htm"@ && ext != "css"@ && ext != "js"@ && ext != "mjs"@ && ext != "cjs"@ && ext != "json"@ && ext != "map"@ && ext != "webmanifest"@ && ext != "svg"@ && ext != "ico"@ && ext != "png"@ && ext != "jpg"@ && ext != "jpeg"@ && ext != "gif"@ && ext != "webp"@ && ext != "avif"@ && ext != "bmp"@ && ext != "woff"@ && ext != "woff2"@ && ext != "ttf"@ && ext != "otf"@ && ext != "eot"@ && ext != "txt"@ && ext != "xml"@ && ext != "pdf"@ && ext != "wasm"@ && ext != "mp4"@ && ext != "webm"@ && ext != "mp3"@ && ext != "wav"@ && ext != "zip"@ ==> kind
                == "application/octet-stream"@
        },
{
    reveal_strlit("html");
    reveal_strlit("htm");
    reveal_strlit("css");
    reveal_strlit("js");
    reveal_strlit("mjs");
    reveal_strlit("cjs");
    reveal_strlit("json");
    reveal_strlit("map");
    reveal_strlit("webmanifest");
    reveal_strlit("svg");
    reveal_strlit("ico");
    reveal_strlit("png");
    reveal_strlit("jpg");
    reveal_strlit("jpeg");
    reveal_strlit("gif");
    reveal_strlit("webp");
    reveal_strlit("avif");
    reveal_strlit("bmp");
    reveal_strlit("woff");
    reveal_strlit("woff2");
    reveal_strlit("ttf");
    reveal_strlit("otf");
    reveal_strlit("eot");
    reveal_strlit("txt");
    reveal_strlit("xml");
    reveal_strlit("pdf");
    reveal_strlit("wasm");
    reveal_strlit("mp4");
    reveal_strlit("webm");
    reveal_strlit("mp3");
    reveal_strlit("wav");
    reveal_strlit("zip");
    assert("html"@.len() == 4 && "html"@[0] == 'h' && "html"@[1] == 't' && "html"@[2] == 'm' && "html"@[3] == 'l');
    assert("htm"@.len() == 3 && "htm"@[0] == 'h' && "htm"@[1] == 't' && "htm"@[2] == 'm');
    assert("css"@.len() == 3 && "css"@[0] == 'c' && "css"@[1] == 's' && "css"@[2] == 's');
    assert("js"@.len() == 2 && "js"@[0] == 'j' && "js"@[1] == 's');
    assert("mjs"@.len() == 3 && "mjs"@[0] == 'm' && "mjs"@[1] == 'j' && "mjs"@[2] == 's');
    assert("cjs"@.len() == 3 && "cjs"@[0] == 'c' && "cjs"@[1] == 'j' && "cjs"@[2] == 's');
    assert("json"@.len() == 4 && "json"@[0] == 'j' && "json"@[1] == 's' && "json"@[2] == 'o' && "json"@[3] == 'n');
    assert("map"@.len() == 3 && "map"@[0] == 'm' && "map"@[1] == 'a' && "map"@[2] == 'p');
    assert("webmanifest"@.len() == 11 && "webmanifest"@[0] == 'w' && "webmanifest"@[1] == 'e' && "webmanifest"@[2] == 'b' && "webmanifest"@[3] == 'm');
    assert("svg"@.len() == 3 && "svg"@[0] == 's' && "svg"@[1] == 'v' && "svg"@[2] == 'g');
    assert("ico"@.len() == 3 && "ico"@[0] == 'i' && "ico"@[1] == 'c' && "ico"@[2] == 'o');
    assert("png"@.len() == 3 && "png"@[0] == 'p' && "png"@[1] == 'n' && "png"@[2] == 'g');
    assert("jpg"@.len() == 3 && "jpg"@[0] == 'j' && "jpg"@[1] == 'p' && "jpg"@[2] == 'g');
    assert("jpeg"@.len() == 4 && "jpeg"@[0] == 'j' && "jpeg"@[1] == 'p' && "jpeg"@[2] == 'e' && "jpeg"@[3] == 'g');
    assert("gif"@.len() == 3 && "gif"@[0] == 'g' && "gif"@[1] == 'i' && "gif"@[2] == 'f');
    assert("webp"@.len() == 4 && "webp"@[0] == 'w' && "webp"@[1] == 'e' && "webp"@[2] == 'b' && "webp"@[3] == 'p');
    assert("avif"@.len() == 4 && "avif"@[0] == 'a' && "avif"@[1] == 'v' && "avif"@[2] == 'i' && "avif"@[3] == 'f');
    assert("bmp"@.len() == 3 && "bmp"@[0] == 'b' && "bmp"@[1] == 'm' && "bmp"@[2] == 'p');
    assert("woff"@.len() == 4 && "woff"@[0] == 'w' && "woff"@[1] == 'o' && "woff"@[2] == 'f' && "woff"@[3] == 'f');
    assert("woff2"@.len() == 5 && "woff2"@[0] == 'w' && "woff2"@[1] == 'o' && "woff2"@[2] == 'f' && "woff2"@[3] == 'f');
    assert("ttf"@.len() == 3 && "ttf"@[0] == 't' && "ttf"@[1] == 't' && "ttf"@[2] == 'f');
    assert("otf"@.len() == 3 && "otf"@[0] == 'o' && "otf"@[1] == 't' && "otf"@[2] == 'f');
    assert("eot"@.len() == 3 && "eot"@[0] == 'e' && "eot"@[1] == 'o' && "eot"@[2] == 't');
    assert("txt"@.len() == 3 && "txt"@[0] == 't' && "txt"@[1] == 'x' && "txt"@[2] == 't');
    assert("xml"@.len() == 3 && "xml"@[0] == 'x' && "xml"@[1] == 'm' && "xml"@[2] == 'l');
    assert("pdf"@.len() == 3 && "pdf"@[0] == 'p' && "pdf"@[1] == 'd' && "pdf"@[2] == 'f');
    assert("wasm"@.len() == 4 && "wasm"@[0] == 'w' && "wasm"@[1] == 'a' && "wasm"@[2] == 's' && "wasm"@[3] == 'm');
    assert("mp4"@.len() == 3 && "mp4"@[0] == 'm' && "mp4"@[1] == 'p' && "mp4"@[2] == '4');
    assert("webm"@.len() == 4 && "webm"@[0] == 'w' && "webm"@[1] == 'e' && "webm"@[2] == 'b' && "webm"@[3] == 'm');
    assert("mp3"@.len() == 3 && "mp3"@[0] == 'm' && "mp3"@[1] == 'p' && "mp3"@[2] == '3');
    assert("wav"@.len() == 3 && "wav"@[0] == 'w' && "wav"@[1] == 'a' && "wav"@[2] == 'v');
    assert("zip"@.len() == 3 && "zip"@[0] == 'z' && "zip"@[1] == 'i' && "zip"@[2] == 'p');
}

proof fn lemma_join_both(a: Seq<Seq<char>>, b: Seq<Seq<char>>, sep: char)
    requires
        a.len() > 0,
        b.len() > 0,
    ensures
        join(a + b, sep) == join(a, sep).push(sep) + join(b, sep),
    decreases b.len(),
{
    let all = a + b;
    let last = b.last();
    if b.len() == 1 {
        assert(all.drop_last() =~= a);
        assert(all.last() == last);
    } else {
        let head = b.drop_last();
        lemma_join_both(a, head, sep);
        assert(all.drop_last() =~= a + head);
        assert(all.last() == last);
        assert(join(all, sep) =~= join(a, sep).push(sep) + join(b, sep));
    }
}

/// A separator between two texts parts their pieces.
proof fn lemma_split_both(a: Seq<char>, b: Seq<char>, sep: char)
    ensures
        split(a + seq![sep] + b, sep) == split(a, sep) + split(b, sep),
{
    let parts = split(a, sep) + split(b, sep);
    lemma_split_nonempty(a, sep);
    lemma_split_nonempty(b, sep);
    lemma_split_free(a, sep);
    lemma_split_free(b, sep);
    lemma_join_split(a, sep);
    lemma_join_split(b, sep);
    lemma_join_both(split(a, sep), split(b, sep), sep);
    assert(a + seq![sep] + b =~= a.push(sep) + b);
    let n = split(a, sep).len();
    assert forall|i: int| 0 <= i < parts.len() implies !(#[trigger] parts[i]).contains(sep) by {
        if i < n {
            assert(parts[i] == split(a, sep)[i]);
        } else {
            assert(parts[i] == split(b, sep)[i - n]);
        }
    }
    lemma_split_join(parts, sep);
}

proof fn lemma_php_index_is(raws: Seq<Seq<char>>, from: int, k: int)
    requires
        0 <= from <= k < raws.len() - 1,
        php_segment(raws[k]),
        forall|i: int| from <= i < k ==> !php_segment(#[trigger] raws[i]),
    ensures
        php_index(raws, from) == Some(k),
    decreases k - from,
{
    if from < k {
        assert(!php_segment(raws[from]));
        lemma_php_index_is(raws, from + 1, k);
    }
}

proof fn lemma_php_index_none(raws: Seq<Seq<char>>, from: int)
    requires
        0 <= from,
        forall|i: int| from <= i < raws.len() - 1 ==> !php_segment(#[trigger] raws[i]),
    ensures
        php_index(raws, from) is None,
    decreases raws.len() - from,
{
    if from < raws.len() - 1 {
        assert(!php_segment(raws[from]));
        lemma_php_index_none(raws, from + 1);
    }
}

proof fn lemma_plain_info(raws: Seq<Seq<char>>)
    requires
        raws.len() > 0,
        forall|i: int|
            0 <= i < raws.len() ==> percent_decoded(#[trigger] raws[i]) == Some(raws[i]) && plain_segment(
                raws[i],
            ),
    ensures
        path_info_of(raws) == Some(seq!['/'] + join(raws, '/')),
    decreases raws.len(),
{
    let head = raws.drop_last();
    let last = raws.last();
    assert(raws[raws.len() - 1] == last);
    if head.len() == 0 {
        assert(path_info_of(head) == Some(Seq::<char>::empty()));
        assert(Seq::<char>::empty().push('/') + last =~= seq!['/'] + join(raws, '/'));
    } else {
        assert forall|i: int| 0 <= i < head.len() implies percent_decoded(#[trigger] head[i]) == Some(head[i])
            && plain_segment(head[i]) by {
            assert(head[i] == raws[i]);
        }
        lemma_plain_info(head);
        assert((seq!['/'] + join(head, '/')).push('/') + last =~= seq!['/'] + join(raws, '/'));
    }
}

/// A path that goes on behind the first segment that names PHP source is split there: what
/// leads to it is the script that it asks for on its own, and the rest, a slash before it,
/// the extra path, as it stands where nothing in it is escaped.
pub proof fn law_paths_split_behind_the_script(head: Seq<char>, rest: Seq<char>)
    requires
        !head.contains('?') && !rest.contains('?'),
        head.len() > 0 && head.last() != '/',
        static_path(head) is Some,
        php_segment(split(head, '/').last()),
        forall|i: int| 0 <= i < split(head, '/').len() - 1 ==> !php_segment(#[trigger] split(head, '/')[i]),
        !rest.contains('%') && !rest.contains('\\') && !rest.contains('\0'),
    ensures
        php_split(head + seq!['/'] + rest) == Some((static_path(head)->0, seq!['/'] + rest)),
{
    let url = head + seq!['/'] + rest;
    let a = split(head, '/');
    let b = split(rest, '/');
    let k = a.len() - 1;
    lemma_split_both(head, rest, '/');
    lemma_split_nonempty(head, '/');
    lemma_split_nonempty(rest, '/');
    lemma_join_split(rest, '/');
    lemma_split_free(rest, '/');
    assert(!url.contains('?')) by {
        if url.contains('?') {
            let j = choose|j: int| 0 <= j < url.len() && url[j] == '?';
            if j < head.len() {
                assert(head[j] == '?');
            } else {
                assert(rest[j - head.len() - 1] == '?');
            }
        }
    }
    lemma_split_first(url, Seq::empty(), '?');
    lemma_split_first(head, Seq::empty(), '?');
    let raws = a + b;
    assert(raws[k] == a.last());
    assert forall|i: int| 0 <= i < k implies !php_segment(#[trigger] raws[i]) by {
        assert(raws[i] == a[i]);
    }
    lemma_php_index_is(raws, 0, k);
    assert(raws.take(k + 1) =~= a);
    assert(raws.skip(k + 1) =~= b);
    assert forall|i: int| 0 <= i < b.len() implies percent_decoded(#[trigger] b[i]) == Some(b[i])
        && plain_segment(b[i]) by {
        lemma_join_holds(b, '/', i, '%');
        lemma_join_holds(b, '/', i, '\\');
        lemma_join_holds(b, '/', i, '\0');
        law_unescaped_segments_decode_to_themselves(b[i]);
    }
    lemma_plain_info(b);
}

/// A path in which no segment but the last names PHP source is not split.
pub proof fn law_other_paths_are_not_split(path: Seq<char>)
    requires
        !path.contains('?'),
        forall|i: int| 0 <= i < split(path, '/').len() - 1 ==> !php_segment(#[trigger] split(path, '/')[i]),
    ensures
        php_split(path) is None,
{
    lemma_split_first(path, Seq::empty(), '?');
    lemma_php_index_none(split(path, '/'), 0);
}

/// A segment names PHP source where what it decodes to does.
pub proof fn law_php_segments(raw: Seq<char>)
    ensures
        percent_decoded(raw) is None ==> !php_segment(raw),
        percent_decoded(raw) is Some ==> (php_segment(raw) <==> php_source(percent_decoded(raw)->0)),
{
}

/// Whether a raw segment may stand in an extra path: it decodes, to text without a
/// separator or NUL.
pub open spec fn goes_on(raw: Seq<char>) -> bool {
    &&& percent_decoded(raw) is Some
    &&& !percent_decoded(raw)->0.contains('/')
    &&& !percent_decoded(raw)->0.contains('\\')
    &&& !percent_decoded(raw)->0.contains('\0')
}

proof fn lemma_info(raws: Seq<Seq<char>>)
    requires
        raws.len() > 0,
    ensures
        path_info_of(raws) is Some <==> forall|i: int| 0 <= i < raws.len() ==> goes_on(#[trigger] raws[i]),
        path_info_of(raws) is Some ==> path_info_of(raws)->0 == seq!['/'] + join(decoded(raws), '/'),
    decreases raws.len(),
{
    let head = raws.drop_last();
    let last = raws.last();
    assert(raws[raws.len() - 1] == last);
    let seg = percent_decoded(last)->0;
    let none = Seq::<char>::empty();
    if head.len() == 0 {
        assert(path_info_of(head) == Some(none));
        assert(decoded(raws) =~= seq![seg]);
        assert(none.push('/') + seg =~= seq!['/'] + join(decoded(raws), '/'));
        if goes_on(last) {
            assert forall|i: int| 0 <= i < raws.len() implies goes_on(#[trigger] raws[i]) by {}
        }
    } else {
        lemma_info(head);
        assert forall|i: int| 0 <= i < head.len() implies head[i] == #[trigger] raws[i] by {}
        assert(decoded(raws).drop_last() =~= decoded(head));
        assert(decoded(raws).last() == seg);
        assert((seq!['/'] + join(decoded(head), '/')).push('/') + seg =~= seq!['/'] + join(
            decoded(raws),
            '/',
        ));
        if path_info_of(raws) is Some {
            assert forall|i: int| 0 <= i < raws.len() implies goes_on(#[trigger] raws[i]) by {
                if i < head.len() {
                    assert(goes_on(head[i]));
                }
            }
        } else if goes_on(last) {
            let i = choose|i: int| 0 <= i < head.len() && !goes_on(#[trigger] head[i]);
            assert(!goes_on(raws[i]));
        }
    }
}

/// The extra path of a split is decoded segment by segment, and every slash in it stays; a
/// path is not split where a segment of it does not decode or hides a separator, nor where
/// what leads to the script is no path of a file.
pub proof fn law_extra_paths_are_decoded(head: Seq<char>, rest: Seq<char>)
    requires
        !head.contains('?') && !rest.contains('?'),
        head.len() > 0 && head.last() != '/',
        php_segment(split(head, '/').last()),
        forall|i: int| 0 <= i < split(head, '/').len() - 1 ==> !php_segment(#[trigger] split(head, '/')[i]),
    ensures
        ({
            let b = split(rest, '/');
            let r = php_split(head + seq!['/'] + rest);
            &&& r is Some <==> static_path(head) is Some && forall|i: int|
                0 <= i < b.len() ==> goes_on(#[trigger] b[i])
            &&& r is Some ==> r->0 == (static_path(head)->0, seq!['/'] + join(decoded(b), '/'))
        }),
{
    let url = head + seq!['/'] + rest;
    let a = split(head, '/');
    let b = split(rest, '/');
    let k = a.len() - 1;
    lemma_split_both(head, rest, '/');
    lemma_split_nonempty(head, '/');
    lemma_split_nonempty(rest, '/');
    assert(!url.contains('?')) by {
        if url.contains('?') {
            let j = choose|j: int| 0 <= j < url.len() && url[j] == '?';
            if j < head.len() {
                assert(head[j] == '?');
            } else {
                assert(rest[j - head.len() - 1] == '?');
            }
        }
    }
    lemma_split_first(url, Seq::empty(), '?');
    lemma_split_first(head, Seq::empty(), '?');
    let raws = a + b;
    assert(raws[k] == a.last());
    assert forall|i: int| 0 <= i < k implies !php_segment(#[trigger] raws[i]) by {
        assert(raws[i] == a[i]);
    }
    lemma_php_index_is(raws, 0, k);
    assert(raws.take(k + 1) =~= a);
    assert(raws.skip(k + 1) =~= b);
    lemma_info(b);
}

/// A name that ends with a dot has an extension, and it is empty.
pub proof fn law_empty_extensions(path: Seq<char>, dir: Seq<char>, stem: Seq<char>)
    requires
        stem.len() > 0,
        stem != seq!['.'],
        !stem.contains('/'),
        is_file(path, dir, stem + seq!['.']),
    ensures
        extension(path) == Some(Seq::<char>::empty()),
{
    reveal_strlit(".");
    reveal_strlit("..");
    assert("."@ =~= seq!['.']);
    assert(".."@ =~= seq!['.', '.']);
    let none = Seq::<char>::empty();
    let name = stem + seq!['.'];
    assert(name =~= stem.push('.') + none);
    assert(!name.contains('/')) by {
        if name.contains('/') {
            let k = choose|k: int| 0 <= k < name.len() && name[k] == '/';
            assert(stem[k] == '/');
        }
    }
    if name == seq!['.', '.'] {
        assert(stem =~= seq!['.']);
    }
    lemma_last_name(path, dir, name);
    lemma_split_grown(stem, none, '.');
    lemma_split_nonempty(stem, '.');
    lemma_join_split(stem, '.');
    if split(stem, '.').len() == 1 {
        assert(split(stem, '.') =~= seq![split(stem, '.')[0]]);
        assert(join(split(stem, '.'), '.') == split(stem, '.')[0]);
    }
}

} // verus!
