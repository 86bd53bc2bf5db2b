//! Model downloads: what is asked of the hub, and what its answers mean.
use serde_json::Value;
use vstd::prelude::*;
use vstd::string::{StringExecFns, StringSliceAdditionalSpecFns};
use vstd::utf8::encode_utf8;
use crate::glob::{fits, glob_matches};
use crate::json::{field, json_field, json_items, json_parsed, parse, read_text_field, text_field};
use crate::text::{
    after_last, decimal, decimal_chars, digits_value, has_char, is_unsigned, parse_unsigned, rest_after_last, texts,
    trim, trim_end_char, trimmed, unsigned_digits, without_end,
};

verus! {

/// The hub that is asked when nothing else is configured.
pub const DEFAULT_ENDPOINT: &'static str = "https://huggingface.co";

/// The hub's base URL, without a slash at its end to double up.
pub fn endpoint(configured: Option<&str>) -> (url: String)
    ensures
        url@ == (match configured {
            Some(e) => without_end(e@, '/'),
            None => DEFAULT_ENDPOINT@,
        }),
{
    match configured {
        Some(e) => trim_end_char(e, '/').to_owned(),
        None => DEFAULT_ENDPOINT.to_owned(),
    }
}

/// The access token: the first of the two settings that is there, unless
/// it is blank.
pub fn token(hf_token: Option<String>, hub_token: Option<String>) -> (t: Option<String>)
    ensures
        t == ({
            let first = if hf_token is Some {
                hf_token
            } else {
                hub_token
            };
            if first is Some && trimmed(first->0@).len() > 0 {
                first
            } else {
                None
            }
        }),
{
    let first: Option<String> = match hf_token {
        Some(t) => Some(t),
        None => hub_token,
    };
    match first {
        Some(t) => if trim(t.as_str()).is_empty() {
            assert(trimmed(t@) =~= Seq::empty());
            None
        } else {
            Some(t)
        },
        None => None,
    }
}

/// The header value a token is sent in.
pub fn authorization(token: &str) -> (h: String)
    ensures
        h@ == "Bearer "@ + token@,
{
    let mut h: String = "Bearer ".to_owned();
    h.append(token);
    h
}

/// Where a repository's file list is.
pub fn listing_url(endpoint: &str, repo: &str) -> (url: String)
    ensures
        url@ == endpoint@ + "/api/models/"@ + repo@,
{
    let mut url: String = endpoint.to_owned();
    url.append("/api/models/");
    url.append(repo);
    url
}

/// Where a file of a repository is.
pub fn file_url(endpoint: &str, repo: &str, filename: &str) -> (url: String)
    ensures
        url@ == endpoint@ + "/"@ + repo@ + "/resolve/main/"@ + filename@,
{
    let mut url: String = endpoint.to_owned();
    url.append("/");
    url.append(repo);
    url.append("/resolve/main/");
    url.append(filename);
    url
}

/// The range to ask for when resuming; nothing from the start.
pub fn range_header(resume_from: u64) -> (h: Option<String>)
    ensures
        h is Some <==> resume_from > 0,
        h is Some ==> h->0@ == "bytes="@ + decimal_chars(resume_from as nat) + "-"@,
{
    if resume_from == 0 {
        return None;
    }
    let mut h: String = "bytes=".to_owned();
    h.append(decimal(resume_from).as_str());
    h.append("-");
    Some(h)
}

/// The number a text spells, white space around it aside.
pub open spec fn number_in(text: Seq<char>) -> Option<u64> {
    let b = encode_utf8(trimmed(text));
    if is_unsigned(b, u64::MAX as nat) {
        Some(digits_value(unsigned_digits(b)) as u64)
    } else {
        None
    }
}

fn read_number(text: &str) -> (n: Option<u64>)
    ensures
        n == number_in(text@),
{
    parse_unsigned(trim(text), u64::MAX)
}

/// The total that a `Content-Range` header states after its last slash.
pub open spec fn range_total(header: Option<&str>) -> Option<u64> {
    match header {
        Some(h) => number_in(after_last(h@, '/')),
        None => None,
    }
}

/// Total size out of `Content-Range: bytes 100-999/1000`; nothing for the
/// form that leaves it unknown.
pub fn content_range_total(header: Option<&str>) -> (n: Option<u64>)
    ensures
        n == range_total(header),
{
    match header {
        Some(h) => read_number(rest_after_last(h, '/')),
        None => None,
    }
}

/// What a download's answer means for the bytes to come.
#[derive(Clone, Copy, Debug, PartialEq, Eq, Structural)]
pub struct HubBody {
    /// The size of the whole file, when the server states one: progress is
    /// cumulative.
    pub total_bytes: Option<u64>,
    /// The bytes continue where the last download stopped.
    pub resumed: bool,
}

/// Reads a download's status and headers. Only a `206` to a request for a
/// range counts as a resume; anything else sends the file from its start.
pub fn open_file(status: u16, resume_from: u64, content_range: Option<&str>, content_length: Option<&str>) -> (b:
    HubBody)
    ensures
        b.resumed == (status == 206 && resume_from > 0),
        b.total_bytes == (if b.resumed {
            range_total(content_range)
        } else {
            match content_length {
                Some(v) => number_in(v@),
                None => None,
            }
        }),
{
    let resumed: bool = status == 206 && resume_from > 0;
    let total_bytes: Option<u64> = if resumed {
        content_range_total(content_range)
    } else {
        match content_length {
            Some(v) => read_number(v),
            None => None,
        }
    };
    HubBody { total_bytes, resumed }
}

/// `a` sorts before `b`, byte by byte.
pub open spec fn sorts_before(a: Seq<u8>, b: Seq<u8>) -> bool
    decreases a.len(),
{
    if b.len() == 0 {
        false
    } else if a.len() == 0 {
        true
    } else {
        a[0] < b[0] || (a[0] == b[0] && sorts_before(a.skip(1), b.skip(1)))
    }
}

proof fn lemma_sorts_transitive(a: Seq<u8>, b: Seq<u8>, c: Seq<u8>)
    requires
        sorts_before(a, b),
        sorts_before(b, c),
    ensures
        sorts_before(a, c),
    decreases a.len(),
{
    if a.len() > 0 && a[0] == b[0] && b[0] == c[0] {
        lemma_sorts_transitive(a.skip(1), b.skip(1), c.skip(1));
    }
}

/// Of two different texts one sorts first.
pub proof fn law_sorting_is_total(a: Seq<u8>, b: Seq<u8>)
    ensures
        a == b || sorts_before(a, b) || sorts_before(b, a),
        !(sorts_before(a, b) && sorts_before(b, a)),
    decreases a.len(),
{
    if a.len() > 0 && b.len() > 0 {
        law_sorting_is_total(a.skip(1), b.skip(1));
        if a[0] == b[0] && a.skip(1) == b.skip(1) {
            assert(a =~= seq![a[0]] + a.skip(1));
            assert(b =~= seq![b[0]] + b.skip(1));
        }
    } else if a.len() == 0 && b.len() == 0 {
        assert(a =~= b);
    }
}

fn is_sorted_before(a: &str, b: &str) -> (r: bool)
    ensures
        r == sorts_before(a.spec_bytes(), b.spec_bytes()),
{
    let (x, y): (&[u8], &[u8]) = (a.as_bytes(), b.as_bytes());
    let mut i: usize = 0;
    proof {
        assert(x@.skip(0) =~= x@);
        assert(y@.skip(0) =~= y@);
    }
    while i < x.len() && i < y.len() && x[i] == y[i]
        invariant
            i <= x@.len(),
            i <= y@.len(),
            sorts_before(x@, y@) == sorts_before(x@.skip(i as int), y@.skip(i as int)),
        decreases x@.len() - i,
    {
        proof {
            assert(x@.skip(i as int).skip(1) =~= x@.skip(i + 1));
            assert(y@.skip(i as int).skip(1) =~= y@.skip(i + 1));
        }
        i = i + 1;
    }
    if i >= y.len() {
        false
    } else if i >= x.len() {
        true
    } else {
        x[i] < y[i]
    }
}

/// A file this server can write and the pattern names: a bare name in the
/// repository's root.
pub open spec fn eligible(name: Seq<char>, pattern: Seq<char>) -> bool {
    !name.contains('/') && fits(encode_utf8(pattern), encode_utf8(name))
}

/// `name` is the first eligible file in sorted order.
pub open spec fn is_pick(names: Seq<Seq<char>>, pattern: Seq<char>, name: Seq<char>) -> bool {
    &&& names.contains(name)
    &&& eligible(name, pattern)
    &&& forall|k: int|
        0 <= k < names.len() && eligible(#[trigger] names[k], pattern) ==> !sorts_before(
            encode_utf8(names[k]),
            encode_utf8(name),
        )
}

/// No file can be picked.
pub open spec fn none_eligible(names: Seq<Seq<char>>, pattern: Seq<char>) -> bool {
    forall|k: int| 0 <= k < names.len() ==> !eligible(#[trigger] names[k], pattern)
}

/// What a pattern that names no file is answered.
pub open spec fn no_match_message(repo: Seq<char>, pattern: Seq<char>) -> Seq<char> {
    "no file in "@ + repo + " matches '"@ + pattern + "'"@
}

/// Picks the file a pattern names out of a repository's files: the first
/// match in sorted order, whatever order they are listed in.
pub fn pick_file(names: &[String], repo: &str, pattern: &str) -> (r: Result<String, String>)
    ensures
        r matches Ok(name) ==> is_pick(texts(names@), pattern@, name@),
        r is Err <==> none_eligible(texts(names@), pattern@),
        r matches Err(e) ==> e@ == no_match_message(repo@, pattern@),
{
    let mut best: Option<usize> = None;
    for i in 0usize..names.len()
        invariant
            best is None ==> forall|k: int| 0 <= k < i ==> !eligible((#[trigger] names@[k])@, pattern@),
            best is Some ==> best->0 < i && eligible(names@[best->0 as int]@, pattern@) && forall|k: int|
                0 <= k < i && eligible((#[trigger] names@[k])@, pattern@) ==> !sorts_before(
                    encode_utf8(names@[k]@),
                    encode_utf8(names@[best->0 as int]@),
                ),
    {
        let name: &str = names[i].as_str();
        if !has_char(name, '/') && glob_matches(pattern, name) {
            let better: bool = match best {
                Some(b) => is_sorted_before(name, names[b].as_str()),
                None => true,
            };
            if better {
                proof {
                    assert forall|k: int| 0 <= k < i + 1 && eligible((#[trigger] names@[k])@, pattern@) implies
                        !sorts_before(encode_utf8(names@[k]@), encode_utf8(name@)) by {
                        let x = encode_utf8(names@[k]@);
                        law_sorting_is_total(x, encode_utf8(name@));
                        if k < i && sorts_before(x, encode_utf8(name@)) {
                            lemma_sorts_transitive(
                                x,
                                encode_utf8(name@),
                                encode_utf8(names@[best->0 as int]@),
                            );
                        }
                        if k == i {
                            law_sorting_is_total(x, x);
                        }
                    }
                }
                best = Some(i);
            }
        }
    }
    match best {
        Some(b) => {
            proof {
                assert(texts(names@)[b as int] == names@[b as int]@);
                assert forall|k: int| 0 <= k < texts(names@).len() && eligible(
                    #[trigger] texts(names@)[k],
                    pattern@,
                ) implies !sorts_before(encode_utf8(texts(names@)[k]), encode_utf8(names@[b as int]@)) by {
                    assert(eligible(names@[k]@, pattern@));
                }
                assert(eligible(texts(names@)[b as int], pattern@));
            }
            Ok(names[b].clone())
        },
        None => {
            assert(forall|k: int| 0 <= k < names@.len() ==> texts(names@)[k] == (#[trigger] names@[k])@);
            let mut e: String = "no file in ".to_owned();
            e.append(repo);
            e.append(" matches '");
            e.append(pattern);
            e.append("'");
            Err(e)
        },
    }
}

/// The choice does not depend on the order the files are listed in.
pub proof fn law_the_pick_is_determined(
    a: Seq<Seq<char>>,
    b: Seq<Seq<char>>,
    pattern: Seq<char>,
    x: Seq<char>,
    y: Seq<char>,
)
    requires
        forall|n: Seq<char>| #[trigger] a.contains(n) == b.contains(n),
        is_pick(a, pattern, x),
        is_pick(b, pattern, y),
    ensures
        x == y,
{
    assert(b.contains(x) && a.contains(y));
    let (i, j) = (a.index_of(y), b.index_of(x));
    assert(a[i] == y && b[j] == x);
    assert(!sorts_before(encode_utf8(y), encode_utf8(x)));
    assert(!sorts_before(encode_utf8(x), encode_utf8(y)));
    law_sorting_is_total(encode_utf8(x), encode_utf8(y));
    crate::text::lemma_encode_injective(x, y);
}

/// The names among the entries of a file list, in order; entries without
/// one are passed over.
pub open spec fn names_among(entries: Seq<Value>) -> Seq<Seq<char>>
    decreases entries.len(),
{
    if entries.len() == 0 {
        Seq::empty()
    } else {
        let before = names_among(entries.drop_last());
        match text_field(entries.last(), "rfilename"@) {
            Some(name) => before.push(name),
            None => before,
        }
    }
}

/// The file names a repository listing holds; none where it holds no list
/// of files.
pub open spec fn listed_names(listing: Value) -> Seq<Seq<char>> {
    match json_field(listing, "siblings"@) {
        Some(list) => match json_items(list) {
            Some(entries) => names_among(entries),
            None => Seq::empty(),
        },
        None => Seq::empty(),
    }
}

/// Reads the file names out of a repository listing.
pub fn sibling_names(listing: &Value) -> (names: Vec<String>)
    ensures
        texts(names@) == listed_names(*listing),
{
    let mut names: Vec<String> = Vec::new();
    assert(texts(names@) =~= Seq::empty());
    if let Some(list) = field(listing, "siblings") {
        if let Some(entries) = list.as_array() {
            assert(entries@.take(0) =~= Seq::empty());
            for i in 0usize..entries.len()
                invariant
                    texts(names@) == names_among(entries@.take(i as int)),
            {
                let ghost before = texts(names@);
                proof {
                    assert(entries@.take(i + 1).drop_last() =~= entries@.take(i as int));
                    assert(entries@.take(i + 1).last() == entries@[i as int]);
                }
                if let Some(name) = read_text_field(&entries[i], "rfilename") {
                    names.push(name.to_owned());
                    assert(texts(names@) =~= before.push(name@));
                }
            }
            assert(entries@.take(entries@.len() as int) =~= entries@);
        }
    }
    names
}

/// What a listing that is not JSON is answered.
pub open spec fn not_json_message(repo: Seq<char>, diagnostic: Seq<char>) -> Seq<char> {
    "the Hub's file list for "@ + repo + " was not JSON: "@ + diagnostic
}

/// Turns a `*` glob into a concrete file name, from the listing that the hub
/// sent for the repository.
pub fn resolve_glob(body: &str, repo: &str, pattern: &str) -> (r: Result<String, String>)
    ensures
        match json_parsed(body@) {
            Ok(listing) => {
                &&& r is Err <==> none_eligible(listed_names(listing), pattern@)
                &&& r matches Ok(name) ==> is_pick(listed_names(listing), pattern@, name@)
                &&& r matches Err(e) ==> e@ == no_match_message(repo@, pattern@)
            },
            Err(diagnostic) => r is Err && r->Err_0@ == not_json_message(repo@, diagnostic),
        },
{
    match parse(body) {
        Ok(listing) => {
            let names: Vec<String> = sibling_names(&listing);
            pick_file(names.as_slice(), repo, pattern)
        },
        Err(diagnostic) => {
            let mut e: String = "the Hub's file list for ".to_owned();
            e.append(repo);
            e.append(" was not JSON: ");
            e.append(diagnostic.as_str());
            Err(e)
        },
    }
}

/// Sorting goes by the first byte in which two names differ; where they do
/// not differ, the shorter one comes first.
pub proof fn law_the_first_difference_decides(common: Seq<u8>, a: Seq<u8>, b: Seq<u8>)
    ensures
        a.len() > 0 && b.len() > 0 && a[0] < b[0] ==> sorts_before(common + a, common + b),
        a.len() > 0 && b.len() > 0 && a[0] > b[0] ==> !sorts_before(common + a, common + b),
        b.len() > 0 ==> sorts_before(common, common + b),
        !sorts_before(common + a, common),
    decreases common.len(),
{
    if common.len() == 0 {
        assert(common + a =~= a);
        assert(common + b =~= b);
    } else {
        let rest = common.skip(1);
        law_the_first_difference_decides(rest, a, b);
        assert((common + a).skip(1) =~= rest + a);
        assert((common + b).skip(1) =~= rest + b);
    }
}

/// A file can be picked exactly when it lies in the root of the repository
/// and the pattern fits it.
pub proof fn law_only_root_files_are_eligible(name: Seq<char>, pattern: Seq<char>)
    ensures
        name.contains('/') ==> !eligible(name, pattern),
        !name.contains('/') ==> eligible(name, pattern) == fits(encode_utf8(pattern), encode_utf8(name)),
{
}

/// The picked file is one of those listed, it is eligible, and no other
/// eligible file sorts before it; there is none exactly when no listed file
/// is eligible.
pub proof fn law_the_pick_is_the_first_eligible_file(
    names: Seq<Seq<char>>,
    pattern: Seq<char>,
    name: Seq<char>,
    other: Seq<char>,
)
    requires
        names.contains(other),
        eligible(other, pattern),
    ensures
        is_pick(names, pattern, name) ==> names.contains(name) && eligible(name, pattern),
        is_pick(names, pattern, name) ==> other == name || sorts_before(encode_utf8(name), encode_utf8(other)),
        !none_eligible(names, pattern),
{
    let k = names.index_of(other);
    assert(names[k] == other);
    if is_pick(names, pattern, name) {
        assert(!sorts_before(encode_utf8(names[k]), encode_utf8(name)));
        law_sorting_is_total(encode_utf8(name), encode_utf8(other));
        if encode_utf8(name) == encode_utf8(other) {
            crate::text::lemma_encode_injective(name, other);
        }
    }
}

/// Every entry with a file name adds that name behind the others; an entry
/// without one adds nothing.
pub proof fn law_every_named_entry_is_listed(entries: Seq<Value>, entry: Value)
    ensures
        names_among(Seq::empty()) == Seq::<Seq<char>>::empty(),
        (json_field(entry, "rfilename"@) matches Some(v) && crate::json::json_text(v) is Some) ==> names_among(
            entries.push(entry),
        ) == names_among(entries).push(crate::json::json_text(json_field(entry, "rfilename"@)->0)->0),
        json_field(entry, "rfilename"@) is None ==> names_among(entries.push(entry)) == names_among(entries),
        (json_field(entry, "rfilename"@) matches Some(v) && crate::json::json_text(v) is None) ==> names_among(
            entries.push(entry),
        ) == names_among(entries),
{
    assert(entries.push(entry).drop_last() =~= entries);
}

/// A listing's files are the entries under its `siblings`; a listing without
/// such an array lists none.
pub proof fn law_a_listing_lists_its_siblings(listing: Value)
    ensures
        json_field(listing, "siblings"@) is None ==> listed_names(listing) == Seq::<Seq<char>>::empty(),
        json_field(listing, "siblings"@) is Some ==> {
            let list = json_field(listing, "siblings"@)->0;
            &&& json_items(list) is None ==> listed_names(listing) == Seq::<Seq<char>>::empty()
            &&& json_items(list) is Some ==> listed_names(listing) == names_among(json_items(list)->0)
        },
{
}

/// A number in decimal, with or without white space around it, is read as
/// that number, alone as well as behind the last slash of a range.
pub proof fn law_a_stated_size_is_read(n: u64, text: Seq<char>, header: &str, unit: Seq<char>)
    requires
        trimmed(text) == decimal_chars(n as nat),
        header@ == unit + "/"@ + text,
        !text.contains('/'),
    ensures
        number_in(text) == Some(n),
        range_total(Some(header)) == Some(n),
        range_total(None) is None,
{
    let d = decimal_chars(n as nat);
    crate::text::law_decimal_reads_back(n as nat);
    let bytes = d.map_values(|c: char| c as u8);
    crate::text::lemma_digits_encode(d);
    assert forall|i: int| 0 <= i < bytes.len() implies 48 <= #[trigger] bytes[i] <= 57 by {
        assert('0' <= d[i] <= '9');
    }
    crate::text::law_unsigned_text(bytes, u64::MAX as nat);
    reveal_strlit("/");
    let h = header@;
    crate::text::law_the_rest_after_the_last(h, '/');
    let t = after_last(h, '/');
    let at = unit.len() as int;
    assert(h[at] == '/');
    if t.len() < text.len() {
        let k = h.len() - t.len() - 1;
        assert(h[k] == '/');
        assert(text[k - at - 1] == '/');
    } else if t.len() > text.len() {
        assert(h.skip(h.len() - t.len())[at - (h.len() - t.len())] == h[at]);
        assert(t.contains('/'));
    }
    assert(t =~= text);
}

/// What the two failures of a lookup say.
pub proof fn law_the_lookup_messages(repo: Seq<char>, pattern: Seq<char>, diagnostic: Seq<char>)
    ensures
        no_match_message(repo, pattern) == "no file in "@ + repo + " matches '"@ + pattern + "'"@,
        not_json_message(repo, diagnostic) == "the Hub's file list for "@ + repo + " was not JSON: "@ + diagnostic,
        DEFAULT_ENDPOINT@ == "https://huggingface.co"@,
{
}

/// What is asked of the hub: the configured endpoint without a slash at its
/// end, or the default one; the list of a repository; a file of its main
/// revision; the token as a bearer.
pub proof fn law_what_is_asked_of_the_hub(
    configured: &str,
    repo: &str,
    file: &str,
    key: &str,
    a: String,
    b: String,
    base: &str,
    listing: String,
    url: String,
    header: String,
)
    requires
        call_ensures(endpoint, (Some(configured),), a),
        call_ensures(endpoint, (None,), b),
        call_ensures(listing_url, (base, repo), listing),
        call_ensures(file_url, (base, repo, file), url),
        call_ensures(authorization, (key,), header),
    ensures
        a@.len() > 0 ==> a@.last() != '/',
        a@.len() <= configured@.len(),
        configured@.take(a@.len() as int) == a@,
        forall|i: int| a@.len() <= i < configured@.len() ==> #[trigger] configured@[i] == '/',
        b@ == "https://huggingface.co"@,
        listing@ == base@ + "/api/models/"@ + repo@,
        url@ == base@ + "/"@ + repo@ + "/resolve/main/"@ + file@,
        header@ == "Bearer "@ + key@,
{
    crate::text::law_only_the_end_is_cut(configured@, '/');
}

/// The token is the first setting that is there, and none if that one is
/// blank.
pub proof fn law_the_first_token_counts(first: String, second: Option<String>, a: Option<String>, b: Option<String>)
    requires
        call_ensures(token, (Some(first), second), a),
        call_ensures(token, (None, second), b),
    ensures
        a is Some ==> a->0 == first,
        a is Some <==> trimmed(first@).len() > 0,
        second is None ==> b is None,
        second is Some ==> (b is Some <==> trimmed(second->0@).len() > 0),
        b is Some ==> b == second,
{
}

/// A resume asks for everything from where the last download stopped, and is
/// one only if the hub says so; otherwise the whole file comes.
pub proof fn law_a_resume_goes_on_where_it_stopped(
    from: u64,
    range: Option<String>,
    status: u16,
    content_range: Option<&str>,
    length: &str,
    body: HubBody,
    unstated: HubBody,
)
    requires
        call_ensures(range_header, (from,), range),
        call_ensures(open_file, (status, from, content_range, Some(length)), body),
        call_ensures(open_file, (status, from, content_range, None), unstated),
    ensures
        from == 0 ==> range is None,
        from > 0 ==> range is Some && range->0@ == "bytes="@ + decimal_chars(from as nat) + "-"@,
        body.resumed <==> status == 206 && from > 0,
        body.resumed ==> body.total_bytes == range_total(content_range),
        !body.resumed ==> body.total_bytes == number_in(length@),
        !unstated.resumed ==> unstated.total_bytes is None,
{
}

} // verus!
