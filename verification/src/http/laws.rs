//! What holds of the parsers and of the response builder on every input.

use crate::http::request::{
    collect_fields, header_field, header_lines, HttpHeader, Method, Resource,
};
use crate::http::response::{EntryModel, HttpResponse, NOT_FOUND_PAGE};
use crate::http::text::{
    byte_len, colon, crlf, decimal, is_ascii_whitespace, is_trimmed, lemma_word_len, lemma_crlf_at, lemma_find_occurs, lemma_split_at_char,
    lemma_split_at_line_break, lemma_trim_is_trimmed, lemma_word_len_before, matches_at, occurs,
    split_once,
};
use vstd::prelude::*;

verus! {

/// A `GET` request for `/` and a path, with one header, has the method `Get`
/// and asks for that path: the one `/` before it is taken off and no more.
/// This holds for every path without a space and without a line break.
pub proof fn lemma_get_request(path: Seq<char>)
    requires
        !path.contains(' '),
        !occurs(path, crlf()),
    ensures
        Method::of_request("GET /"@ + path + " HTTP/1.1\r\nHost: x\r\n\r\n"@) == Method::Get,
        Resource::of_request("GET /"@ + path + " HTTP/1.1\r\nHost: x\r\n\r\n"@) == Some(path),
{
    reveal_strlit("GET /");
    reveal_strlit("GET");
    reveal_strlit(" HTTP/1.1\r\nHost: x\r\n\r\n");
    let request = "GET /"@ + path + " HTTP/1.1\r\nHost: x\r\n\r\n"@;
    let verb = seq!['G', 'E', 'T'];
    let target = seq!['/'] + path;
    let version = seq!['H', 'T', 'T', 'P', '/', '1', '.', '1'];
    let rest = target + seq![' '] + version;
    let line = verb + seq![' '] + rest;
    let tail = " HTTP/1.1\r\nHost: x\r\n\r\n"@.skip(11);
    assert(request =~= line + crlf() + tail);
    assert(verb =~= "GET"@);
    assert(!occurs(line, crlf())) by {
        assert forall|j: int| !matches_at(line, crlf(), j) by {
            lemma_crlf_at(line, j);
            lemma_crlf_at(path, j - 5);
        }
    }
    lemma_split_at_line_break(line, tail);
    lemma_word_len_before(verb, ' ', rest);
    lemma_split_at_char(verb, ' ', rest);
    assert(!target.contains(' ')) by {
        assert forall|i: int| 0 <= i < target.len() implies target[i] != ' ' by {
            if i > 0 {
                assert(target[i] == path[i - 1]);
            }
        }
    }
    lemma_split_at_char(target, ' ', version);
    assert(target.skip(1) =~= path);
}


/// The method of a request is that of its verb, whichever ASCII whitespace
/// character ends the verb: a space, a tab or another.
pub proof fn lemma_method_of_verb(verb: Seq<char>, c: char, rest: Seq<char>, tail: Seq<char>)
    requires
        forall|k: int| 0 <= k < verb.len() ==> !is_ascii_whitespace(#[trigger] verb[k]),
        is_ascii_whitespace(c),
        !occurs(verb + seq![c] + rest, crlf()),
    ensures
        Method::of_request(verb + seq![c] + rest + crlf() + tail) == Method::of_verb(verb),
{
    let line = verb + seq![c] + rest;
    lemma_split_at_line_break(line, tail);
    lemma_word_len_before(verb, c, rest);
}

/// A request line without ASCII whitespace has no verb, so the method of
/// the request is not known.
pub proof fn lemma_method_without_whitespace(line: Seq<char>, tail: Seq<char>)
    requires
        forall|k: int| 0 <= k < line.len() ==> !is_ascii_whitespace(#[trigger] line[k]),
    ensures
        Method::of_request(line + crlf() + tail) == Method::Uninitialised,
{
    assert(!occurs(line, crlf())) by {
        assert forall|j: int| !matches_at(line, crlf(), j) by {
            lemma_crlf_at(line, j);
            if 0 <= j < line.len() {
                assert(!is_ascii_whitespace(line[j]));
            }
        }
    }
    lemma_split_at_line_break(line, tail);
    lemma_word_len(line);
}

/// The text of a header block: each line followed by a line break.
pub open spec fn header_block(lines: Seq<Seq<char>>) -> Seq<char>
    decreases lines.len(),
{
    if lines.len() == 0 {
        Seq::empty()
    } else {
        lines[0] + crlf() + header_block(lines.skip(1))
    }
}

/// A header line that can be read: it is not empty, holds no line break and
/// has a colon.
pub open spec fn well_formed_line(line: Seq<char>) -> bool {
    &&& line.len() > 0
    &&& !occurs(line, crlf())
    &&& occurs(line, colon())
}

/// The name of a header line that has a colon.
pub open spec fn name_of(line: Seq<char>) -> Seq<char> {
    (header_field(line)->0).0
}

/// The value of a header line that has a colon.
pub open spec fn value_of(line: Seq<char>) -> Seq<char> {
    (header_field(line)->0).1
}

/// No two of the lines have the same name.
pub open spec fn names_differ(lines: Seq<Seq<char>>) -> bool {
    forall|i: int, j: int|
        0 <= i < j < lines.len() ==> name_of(#[trigger] lines[i]) != name_of(#[trigger] lines[j])
}

/// Every one of the lines has a colon.
pub open spec fn all_have_colon(lines: Seq<Seq<char>>) -> bool {
    forall|i: int| 0 <= i < lines.len() ==> header_field(#[trigger] lines[i]) is Some
}

/// Some one of the lines has the name `name`.
pub open spec fn has_name(lines: Seq<Seq<char>>, name: Seq<char>) -> bool {
    exists|i: int| 0 <= i < lines.len() && name_of(#[trigger] lines[i]) == name
}

/// No line after line `i` has the name of line `i`.
pub open spec fn is_last_of_its_name(lines: Seq<Seq<char>>, i: int) -> bool {
    forall|j: int| i < j < lines.len() ==> name_of(#[trigger] lines[j]) != name_of(lines[i])
}

/// None of the lines has a name that `acc` holds.
pub open spec fn none_named_in(lines: Seq<Seq<char>>, acc: Map<Seq<char>, Seq<char>>) -> bool {
    forall|i: int| 0 <= i < lines.len() ==> !acc.contains_key(name_of(#[trigger] lines[i]))
}

/// A block of lines that hold no line break, followed by an empty line or by
/// nothing, is read back as those lines.
pub proof fn lemma_header_lines_of_block(lines: Seq<Seq<char>>, after: Seq<char>)
    requires
        forall|i: int|
            0 <= i < lines.len() ==> (#[trigger] lines[i]).len() > 0 && !occurs(lines[i], crlf()),
    ensures
        header_lines(header_block(lines)) == lines,
        header_lines(header_block(lines) + crlf() + after) == lines,
    decreases lines.len(),
{
    let empty = Seq::<char>::empty();
    if lines.len() == 0 {
        assert(!occurs(empty, crlf())) by {
            assert forall|j: int| !matches_at(empty, crlf(), j) by {
                lemma_crlf_at(empty, j);
            }
        }
        lemma_split_at_line_break(empty, after);
        assert(header_block(lines) + crlf() + after =~= empty + crlf() + after);
        assert(lines =~= Seq::<Seq<char>>::empty());
    } else {
        let first = lines[0];
        let more = lines.skip(1);
        assert forall|i: int| 0 <= i < more.len() implies (#[trigger] more[i]).len() > 0
            && !occurs(more[i], crlf()) by {
            assert(more[i] == lines[i + 1]);
        }
        lemma_header_lines_of_block(more, after);
        lemma_split_at_line_break(first, header_block(more));
        lemma_split_at_line_break(first, header_block(more) + crlf() + after);
        assert(header_block(lines) + crlf() + after =~= first + crlf() + (header_block(more)
            + crlf() + after));
        assert(seq![first] + more =~= lines);
    }
}

proof fn lemma_has_name_step(lines: Seq<Seq<char>>, name: Seq<char>)
    requires
        lines.len() > 0,
    ensures
        has_name(lines, name) <==> name_of(lines[0]) == name || has_name(lines.skip(1), name),
{
    let more = lines.skip(1);
    if has_name(lines, name) {
        let i = choose|i: int| 0 <= i < lines.len() && name_of(#[trigger] lines[i]) == name;
        if i > 0 {
            assert(more[i - 1] == lines[i]);
        }
    }
    if has_name(more, name) {
        let i = choose|i: int| 0 <= i < more.len() && name_of(#[trigger] more[i]) == name;
        assert(lines[i + 1] == more[i]);
    }
    if name_of(lines[0]) == name {
        assert(0 <= 0 < lines.len() && name_of(lines[0]) == name);
    }
}

proof fn lemma_all_have_colon_step(lines: Seq<Seq<char>>)
    requires
        lines.len() > 0,
        all_have_colon(lines),
    ensures
        header_field(lines[0]) is Some,
        all_have_colon(lines.skip(1)),
{
    let more = lines.skip(1);
    assert forall|i: int| 0 <= i < more.len() implies header_field(#[trigger] more[i]) is Some by {
        assert(more[i] == lines[i + 1]);
    }
}

proof fn lemma_collect_names(lines: Seq<Seq<char>>, acc: Map<Seq<char>, Seq<char>>)
    requires
        all_have_colon(lines),
        acc.dom().finite(),
    ensures
        collect_fields(lines, acc) is Some,
        (collect_fields(lines, acc)->0).dom().finite(),
        forall|name: Seq<char>| #[trigger]
            (collect_fields(lines, acc)->0).contains_key(name) <==> acc.contains_key(name)
                || has_name(lines, name),
    decreases lines.len(),
{
    if lines.len() > 0 {
        lemma_all_have_colon_step(lines);
        let next = acc.insert(name_of(lines[0]), value_of(lines[0]));
        lemma_collect_names(lines.skip(1), next);
        let fields = collect_fields(lines, acc)->0;
        assert forall|name: Seq<char>| #[trigger]
            fields.contains_key(name) <==> acc.contains_key(name) || has_name(lines, name) by {
            lemma_has_name_step(lines, name);
        }
    } else {
        assert forall|name: Seq<char>| !has_name(lines, name) by {}
    }
}

proof fn lemma_collect_len(lines: Seq<Seq<char>>, acc: Map<Seq<char>, Seq<char>>)
    requires
        all_have_colon(lines),
        acc.dom().finite(),
    ensures
        (collect_fields(lines, acc)->0).len() <= acc.len() + lines.len(),
        names_differ(lines) && none_named_in(lines, acc) ==> (collect_fields(lines, acc)->0).len()
            == acc.len() + lines.len(),
    decreases lines.len(),
{
    if lines.len() > 0 {
        lemma_all_have_colon_step(lines);
        let more = lines.skip(1);
        let name = name_of(lines[0]);
        let next = acc.insert(name, value_of(lines[0]));
        lemma_collect_len(more, next);
        assert(next.dom() =~= acc.dom().insert(name));
        if names_differ(lines) && none_named_in(lines, acc) {
            assert(!acc.contains_key(name_of(lines[0])));
            assert(names_differ(more)) by {
                assert forall|i: int, j: int| 0 <= i < j < more.len() implies name_of(
                    #[trigger] more[i],
                ) != name_of(#[trigger] more[j]) by {
                    assert(more[i] == lines[i + 1] && more[j] == lines[j + 1]);
                }
            }
            assert(none_named_in(more, next)) by {
                assert forall|i: int| 0 <= i < more.len() implies !next.contains_key(
                    name_of(#[trigger] more[i]),
                ) by {
                    assert(more[i] == lines[i + 1]);
                    assert(name_of(lines[0]) != name_of(lines[i + 1]));
                }
            }
        }
    }
}

proof fn lemma_collect_values(lines: Seq<Seq<char>>, acc: Map<Seq<char>, Seq<char>>)
    requires
        all_have_colon(lines),
        acc.dom().finite(),
    ensures
        forall|i: int|
            0 <= i < lines.len() && #[trigger] is_last_of_its_name(lines, i) ==> (collect_fields(
                lines,
                acc,
            )->0)[name_of(lines[i])] == value_of(lines[i]),
        forall|name: Seq<char>|
            acc.contains_key(name) && !#[trigger] has_name(lines, name) ==> (collect_fields(
                lines,
                acc,
            )->0)[name] == acc[name],
    decreases lines.len(),
{
    if lines.len() > 0 {
        lemma_all_have_colon_step(lines);
        let more = lines.skip(1);
        let first = name_of(lines[0]);
        let next = acc.insert(first, value_of(lines[0]));
        lemma_collect_values(more, next);
        let fields = collect_fields(lines, acc)->0;
        assert(fields == collect_fields(more, next)->0);
        assert forall|i: int|
            0 <= i < lines.len() && #[trigger] is_last_of_its_name(lines, i) implies fields[name_of(
            lines[i],
        )] == value_of(lines[i]) by {
            if i == 0 {
                assert(!has_name(more, first)) by {
                    if has_name(more, first) {
                        let k = choose|k: int|
                            0 <= k < more.len() && name_of(#[trigger] more[k]) == first;
                        assert(lines[k + 1] == more[k]);
                    }
                }
                assert(next.contains_key(first));
            } else {
                assert(more[i - 1] == lines[i]);
                assert(is_last_of_its_name(more, i - 1)) by {
                    assert forall|j: int| i - 1 < j < more.len() implies name_of(
                        #[trigger] more[j],
                    ) != name_of(more[i - 1]) by {
                        assert(more[j] == lines[j + 1]);
                    }
                }
            }
        }
        assert forall|name: Seq<char>|
            acc.contains_key(name) && !#[trigger] has_name(lines, name) implies fields[name]
            == acc[name] by {
            lemma_has_name_step(lines, name);
            assert(next.contains_key(name));
        }
    }
}

/// Putting the fields of lines that all have a colon into `acc` succeeds.
/// The result holds the names of `acc` and of the lines, and no others; each
/// name of a line has the value of the last line of that name; the names of
/// `acc` that no line has keep their values.
pub proof fn lemma_collect_fields(lines: Seq<Seq<char>>, acc: Map<Seq<char>, Seq<char>>)
    requires
        all_have_colon(lines),
        acc.dom().finite(),
    ensures
        collect_fields(lines, acc) matches Some(fields) && {
            &&& fields.dom().finite()
            &&& forall|name: Seq<char>| #[trigger]
                fields.contains_key(name) <==> acc.contains_key(name) || has_name(lines, name)
            &&& fields.len() <= acc.len() + lines.len()
            &&& names_differ(lines) && none_named_in(lines, acc) ==> fields.len() == acc.len()
                + lines.len()
            &&& forall|i: int|
                0 <= i < lines.len() && #[trigger] is_last_of_its_name(lines, i)
                    ==> fields[name_of(lines[i])] == value_of(lines[i])
            &&& forall|name: Seq<char>|
                acc.contains_key(name) && !#[trigger] has_name(lines, name) ==> fields[name]
                    == acc[name]
        },
{
    lemma_collect_names(lines, acc);
    lemma_collect_len(lines, acc);
    lemma_collect_values(lines, acc);
}

/// Among lines of which one has the name `name`, one is the last to have it.
proof fn lemma_last_of_name(lines: Seq<Seq<char>>, name: Seq<char>)
    requires
        has_name(lines, name),
    ensures
        exists|i: int|
            0 <= i < lines.len() && name_of(lines[i]) == name && #[trigger] is_last_of_its_name(
                lines,
                i,
            ),
    decreases lines.len(),
{
    let last = lines.len() - 1;
    if name_of(lines[last]) == name {
        assert(is_last_of_its_name(lines, last));
    } else {
        let front = lines.drop_last();
        let k = choose|k: int| 0 <= k < lines.len() && name_of(#[trigger] lines[k]) == name;
        assert(front[k] == lines[k]);
        lemma_last_of_name(front, name);
        let i = choose|i: int|
            0 <= i < front.len() && name_of(front[i]) == name && #[trigger] is_last_of_its_name(
                front,
                i,
            );
        assert(lines[i] == front[i]);
        assert(is_last_of_its_name(lines, i)) by {
            assert forall|j: int| i < j < lines.len() implies name_of(#[trigger] lines[j])
                != name_of(lines[i]) by {
                if j < last {
                    assert(front[j] == lines[j]);
                }
            }
        }
    }
}

/// A request whose header block is `lines`, each well formed, followed by an
/// empty line: its fields can be read. Their names are those of the lines.
/// There are as many fields as lines, or fewer where lines share a name, and
/// exactly as many where no two do. Every name and value is trimmed, and
/// each name has the value of the last line of that name.
pub proof fn lemma_headers_of_well_formed_lines(
    first: Seq<char>,
    lines: Seq<Seq<char>>,
    body: Seq<char>,
)
    requires
        !occurs(first, crlf()),
        forall|i: int| 0 <= i < lines.len() ==> well_formed_line(#[trigger] lines[i]),
    ensures
        HttpHeader::of_request(first + crlf() + header_block(lines) + crlf() + body) matches Some(
            fields,
        ) && {
            &&& fields.dom().finite()
            &&& fields.len() <= lines.len()
            &&& names_differ(lines) ==> fields.len() == lines.len()
            &&& forall|name: Seq<char>| #[trigger]
                fields.contains_key(name) <==> has_name(lines, name)
            &&& forall|name: Seq<char>| #[trigger]
                fields.contains_key(name) ==> is_trimmed(name) && is_trimmed(fields[name])
            &&& forall|i: int|
                0 <= i < lines.len() && #[trigger] is_last_of_its_name(lines, i)
                    ==> fields[name_of(lines[i])] == value_of(lines[i])
        },
{
    let request = first + crlf() + header_block(lines) + crlf() + body;
    let block = header_block(lines) + crlf() + body;
    let none = Map::<Seq<char>, Seq<char>>::empty();
    assert(request =~= first + crlf() + block);
    lemma_split_at_line_break(first, block);
    assert forall|i: int| 0 <= i < lines.len() implies (#[trigger] lines[i]).len() > 0 && !occurs(
        lines[i],
        crlf(),
    ) && header_field(lines[i]) is Some by {
        assert(well_formed_line(lines[i]));
        lemma_find_occurs(lines[i], colon());
    }
    lemma_header_lines_of_block(lines, body);
    lemma_collect_fields(lines, none);
    let fields = collect_fields(lines, none)->0;
    assert(HttpHeader::of_request(request) == Some(fields));
    assert(none.len() == 0);
    assert(none_named_in(lines, none));
    assert forall|name: Seq<char>| #[trigger] fields.contains_key(name) implies is_trimmed(name)
        && is_trimmed(fields[name]) by {
        lemma_last_of_name(lines, name);
        let i = choose|i: int|
            0 <= i < lines.len() && name_of(lines[i]) == name && #[trigger] is_last_of_its_name(
                lines,
                i,
            );
        assert(fields[name_of(lines[i])] == value_of(lines[i]));
        let parts = split_once(lines[i], colon())->0;
        lemma_trim_is_trimmed(parts.0);
        lemma_trim_is_trimmed(parts.1);
    }
}

/// The response is a function of the path asked for and of what the file
/// system holds there: two responses built from the same two are the same,
/// and so are the bytes that go out.
pub proof fn lemma_response_is_determined(
    a: HttpResponse,
    b: HttpResponse,
    path: Seq<char>,
    entry: EntryModel,
)
    requires
        a@ == HttpResponse::of(path, entry),
        b@ == HttpResponse::of(path, entry),
    ensures
        a@ == b@,
        vstd::utf8::encode_utf8(a@.body) == vstd::utf8::encode_utf8(b@.body),
{
}


/// Whatever path is asked for, the response for a path that does not exist
/// is the same head and nothing after it: it reports 404 and the length 0.
pub proof fn lemma_missing_response(path: Seq<char>)
    ensures
        HttpResponse::of(path, EntryModel::Missing).content_length == 0,
        HttpResponse::of(path, EntryModel::Missing).body
            == "HTTP/2 404 Not Found\naccept-ranges:none\ncontent-length: 0\r\n\r\n"@,
{
    reveal_strlit("0123456789");
    reveal_strlit("HTTP/2");
    reveal_strlit(" ");
    reveal_strlit("404 Not Found");
    reveal_strlit("\n");
    reveal_strlit("accept-ranges:none");
    reveal_strlit("\ncontent-length: ");
    reveal_strlit("\r\n\r\n");
    reveal_strlit("HTTP/2 404 Not Found\naccept-ranges:none\ncontent-length: 0\r\n\r\n");
    assert(decimal(0) =~= seq!['0']);
    assert(HttpResponse::of(path, EntryModel::Missing).body
        =~= "HTTP/2 404 Not Found\naccept-ranges:none\ncontent-length: 0\r\n\r\n"@);
}

/// The page that stands for a path that is no file takes 116 bytes.
pub proof fn lemma_not_found_page_len()
    ensures
        byte_len(NOT_FOUND_PAGE@) == 116,
{
    reveal_strlit(
        "<html>\n                <body>\n                <h1>404 NOT FOUND</h1>\n                </body>\n                </html>",
    );
    vstd::utf8::is_ascii_chars_encode_utf8(NOT_FOUND_PAGE@);
}


/// Whatever path is asked for, the response for something that is no file
/// is the same head: it reports 404 and announces the 116 bytes of the page.
pub proof fn lemma_directory_response(path: Seq<char>)
    ensures
        HttpResponse::of(path, EntryModel::Directory).content_length == 116,
        HttpResponse::of(path, EntryModel::Directory).body
            == "HTTP/2 404 Not Found\naccept-ranges:none\ncontent-length: 116\r\n\r\n"@,
{
    lemma_not_found_page_len();
    reveal_strlit("0123456789");
    reveal_strlit("HTTP/2");
    reveal_strlit(" ");
    reveal_strlit("404 Not Found");
    reveal_strlit("\n");
    reveal_strlit("accept-ranges:none");
    reveal_strlit("\ncontent-length: ");
    reveal_strlit("\r\n\r\n");
    reveal_strlit("HTTP/2 404 Not Found\naccept-ranges:none\ncontent-length: 116\r\n\r\n");
    assert(decimal(1) =~= seq!['1']);
    assert(decimal(11) =~= seq!['1', '1']);
    assert(decimal(116) =~= seq!['1', '1', '6']);
    assert(HttpResponse::of(path, EntryModel::Directory).body
        =~= "HTTP/2 404 Not Found\naccept-ranges:none\ncontent-length: 116\r\n\r\n"@);
}

} // verus!
