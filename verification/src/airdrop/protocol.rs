//! The bodies of AirDrop's three calls.
//!
//! Discover and ask are property lists. An upload is an archive.

use crate::airdrop::cpio::{
    archive_bytes, broken_stream, files_view, names_stay, pack_gzip, pack_objection, reads_back,
    unpack, upload_files, ArchiveEntry,
};
use crate::airdrop::property::{
    as_dict, as_list, as_text, binary_mark, binary_of, data_value, dict_get, dict_insert, dict_new,
    dict_value, entries_of, flag_value, from_bytes, is_plain, lemma_found_key, lemma_new_key,
    list_value, lookup, text_value, to_binary, tree_in, tree_of, trees_of, Tree,
};
use crate::bytes::has_prefix;
use crate::compress::gzipped;
use crate::error::{Error, ErrorView, Result};
use crate::mime::{sniff, sniffed, uniform_type, uniform_type_name};
use crate::text::{begins_with, seq_view};
use vstd::prelude::*;
use vstd::utf8::*;

verus! {

#[derive(Debug, Clone, PartialEq, Eq)]
pub struct AskFile {
    pub name: String,
}

impl View for AskFile {
    type V = Seq<char>;

    open spec fn view(&self) -> Seq<char> {
        self.name@
    }
}

#[derive(Debug, Clone, PartialEq, Eq)]
pub struct Ask {
    pub sender_name: String,
    pub sender_id: String,
    pub files: Vec<AskFile>,
}

/// What a sender asks for: its name, its id, and the names of its files.
pub ghost struct AskView {
    pub sender_name: Seq<char>,
    pub sender_id: Seq<char>,
    pub files: Seq<Seq<char>>,
}

impl View for Ask {
    type V = AskView;

    open spec fn view(&self) -> AskView {
        AskView {
            sender_name: self.sender_name@,
            sender_id: self.sender_id@,
            files: seq_view(self.files@),
        }
    }
}

/// `{"Version":1}`, what a receiver says of the media that it takes.
pub const MEDIA_CAPABILITIES: &'static str = "{\"Version\":1}";

/// What a receiver answers to an ask.
pub open spec fn ask_response_tree(name: Seq<char>, model: Seq<char>) -> Tree {
    Tree::Dict(
        seq![
            ("ReceiverComputerName"@, Tree::Text(name)),
            ("ReceiverModelName"@, Tree::Text(model)),
        ],
    )
}

/// What a receiver answers to a discover.
pub open spec fn discover_response_tree(name: Seq<char>, model: Seq<char>) -> Tree {
    Tree::Dict(
        seq![
            ("ReceiverComputerName"@, Tree::Text(name)),
            ("ReceiverModelName"@, Tree::Text(model)),
            (
                "ReceiverMediaCapabilities"@,
                Tree::Data(encode_utf8(MEDIA_CAPABILITIES@)),
            ),
        ],
    )
}

/// What a sender says of one of its files.
pub open spec fn ask_file_tree(name: Seq<char>, mime: Seq<char>) -> Tree {
    Tree::Dict(
        seq![
            ("FileName"@, Tree::Text(name)),
            ("FileType"@, Tree::Text(uniform_type_name(mime))),
            ("FileBomPath"@, Tree::Text("./"@ + name)),
            ("FileIsDirectory"@, Tree::Flag(false)),
            ("ConvertMediaFormats"@, Tree::Flag(false)),
        ],
    )
}

/// What a sender asks.
pub open spec fn ask_tree(
    sender_name: Seq<char>,
    sender_id: Seq<char>,
    files: Seq<(Seq<char>, Seq<char>)>,
) -> Tree {
    Tree::Dict(
        seq![
            ("SenderComputerName"@, Tree::Text(sender_name)),
            ("BundleID"@, Tree::Text("com.apple.finder"@)),
            ("SenderModelName"@, Tree::Text("Crossdrop"@)),
            ("SenderID"@, Tree::Text(sender_id)),
            ("ConvertMediaFormats"@, Tree::Flag(false)),
            (
                "Files"@,
                Tree::List(
                    Seq::new(files.len(), |i: int| ask_file_tree(files[i].0, files[i].1)),
                ),
            ),
        ],
    )
}

/// The text of a key, or `or` where there is none.
pub open spec fn text_or(entries: Seq<(Seq<char>, Tree)>, key: Seq<char>, or: Seq<char>) -> Seq<char> {
    match lookup(entries, key) {
        Some(Tree::Text(text)) => text,
        _ => or,
    }
}

/// The names in a list of files: those of its dictionaries, each of which must
/// have one.
pub open spec fn file_names(items: Seq<Tree>) -> Option<Seq<Seq<char>>>
    decreases items.len(),
{
    if items.len() == 0 {
        Some(Seq::empty())
    } else {
        match file_names(items.drop_last()) {
            None => None,
            Some(names) => match items.last() {
                Tree::Dict(entries) => match lookup(entries, "FileName"@) {
                    Some(Tree::Text(name)) => Some(names.push(name)),
                    _ => None,
                },
                _ => Some(names),
            },
        }
    }
}

/// The list under `Files`.
pub open spec fn file_list(entries: Seq<(Seq<char>, Tree)>) -> Seq<Tree> {
    match lookup(entries, "Files"@) {
        Some(Tree::List(items)) => items,
        _ => Seq::empty(),
    }
}

/// What a property list asks for.
pub open spec fn read_ask(tree: Tree) -> std::result::Result<AskView, ErrorView> {
    match tree {
        Tree::Dict(entries) => match file_names(file_list(entries)) {
            None => Err(ErrorView::Protocol("ask file is missing FileName"@)),
            Some(files) => if files.len() == 0 {
                Err(ErrorView::Protocol("ask request has no files"@))
            } else {
                Ok(
                    AskView {
                        sender_name: text_or(entries, "SenderComputerName"@, "Apple device"@),
                        sender_id: text_or(entries, "SenderID"@, Seq::empty()),
                        files,
                    },
                )
            },
        },
        _ => Err(ErrorView::Protocol("ask body is not a dictionary"@)),
    }
}

/// The bytes are the binary form of the tree, and the tree is read back from
/// them.
pub open spec fn written(bytes: Result<Vec<u8>>, tree: Tree) -> bool {
    &&& bytes is Ok
    &&& bytes->Ok_0@ == binary_of(tree)
    &&& has_prefix(bytes->Ok_0@, binary_mark())
    &&& tree_in(bytes->Ok_0@) == Some(tree)
}

fn write_plist(dict: plist::Dictionary) -> (bytes: Result<Vec<u8>>)
    requires
        is_plain(Tree::Dict(entries_of(dict))),
    ensures
        written(bytes, Tree::Dict(entries_of(dict))),
{
    match to_binary(&dict_value(dict)) {
        Ok(bytes) => Ok(bytes),
        Err(text) => {
            let mut message = "plist: ".to_owned();
            message.append(text.as_str());
            Err(Error::Protocol(message))
        },
    }
}

pub fn discover_response(name: &str, model: &str) -> (bytes: Result<Vec<u8>>)
    ensures
        written(bytes, discover_response_tree(name@, model@)),
{
    let mut dict = dict_new();
    proof {
        reveal_strlit("ReceiverComputerName");
        reveal_strlit("ReceiverModelName");
        reveal_strlit("ReceiverMediaCapabilities");
        assert("ReceiverComputerName"@[8] == 'C');
        assert("ReceiverModelName"@[10] == 'd');
        assert("ReceiverMediaCapabilities"@[9] == 'e');
        assert("ReceiverModelName"@[9] == 'o');
    }
    dict_insert(&mut dict, "ReceiverComputerName", text_value(name));
    dict_insert(&mut dict, "ReceiverModelName", text_value(model));
    dict_insert(
        &mut dict,
        "ReceiverMediaCapabilities",
        data_value(MEDIA_CAPABILITIES.as_bytes()),
    );
    proof {
        let e0 = Seq::<(Seq<char>, Tree)>::empty();
        let e1 = e0.push(("ReceiverComputerName"@, Tree::Text(name@)));
        let e2 = e1.push(("ReceiverModelName"@, Tree::Text(model@)));
        let media = Tree::Data(encode_utf8(MEDIA_CAPABILITIES@));
        lemma_new_key(e0, "ReceiverComputerName"@, Tree::Text(name@));
        lemma_new_key(e1, "ReceiverModelName"@, Tree::Text(model@));
        lemma_new_key(e2, "ReceiverMediaCapabilities"@, media);
        assert(discover_response_tree(name@, model@)->Dict_0 =~= e2.push(
            ("ReceiverMediaCapabilities"@, media),
        ));
        reveal_with_fuel(is_plain, 2);
    }
    write_plist(dict)
}

pub fn ask_response(name: &str, model: &str) -> (bytes: Result<Vec<u8>>)
    ensures
        written(bytes, ask_response_tree(name@, model@)),
{
    let mut dict = dict_new();
    dict_insert(&mut dict, "ReceiverComputerName", text_value(name));
    dict_insert(&mut dict, "ReceiverModelName", text_value(model));
    proof {
        reveal_strlit("ReceiverComputerName");
        reveal_strlit("ReceiverModelName");
        assert("ReceiverComputerName"@[8] == 'C');
        let e0 = Seq::<(Seq<char>, Tree)>::empty();
        let e1 = e0.push(("ReceiverComputerName"@, Tree::Text(name@)));
        lemma_new_key(e0, "ReceiverComputerName"@, Tree::Text(name@));
        lemma_new_key(e1, "ReceiverModelName"@, Tree::Text(model@));
        assert(ask_response_tree(name@, model@)->Dict_0 =~= e1.push(
            ("ReceiverModelName"@, Tree::Text(model@)),
        ));
        reveal_with_fuel(is_plain, 2);
    }
    write_plist(dict)
}

pub fn discover_request() -> (bytes: Result<Vec<u8>>)
    ensures
        written(bytes, Tree::Dict(Seq::empty())),
{
    write_plist(dict_new())
}

/// The names and media types of files, by their views.
pub open spec fn pairs_view(files: Seq<(String, String)>) -> Seq<(Seq<char>, Seq<char>)> {
    Seq::new(files.len(), |i: int| (files[i].0@, files[i].1@))
}

/// The keys of a file's entry differ from each other.
proof fn lemma_file_keys()
    ensures
        "FileName"@.len() == 8,
        "FileType"@.len() == 8,
        "FileName"@[4] != "FileType"@[4],
        "FileBomPath"@.len() == 11,
        "FileIsDirectory"@.len() == 15,
        "ConvertMediaFormats"@.len() == 19,
{
    reveal_strlit("FileName");
    reveal_strlit("FileType");
    reveal_strlit("FileBomPath");
    reveal_strlit("FileIsDirectory");
    reveal_strlit("ConvertMediaFormats");
}

/// The keys of an ask differ from each other.
proof fn lemma_ask_keys()
    ensures
        "SenderComputerName"@.len() == 18,
        "BundleID"@.len() == 8,
        "SenderModelName"@.len() == 15,
        "SenderID"@.len() == 8,
        "BundleID"@[0] != "SenderID"@[0],
        "ConvertMediaFormats"@.len() == 19,
        "Files"@.len() == 5,
{
    reveal_strlit("SenderComputerName");
    reveal_strlit("BundleID");
    reveal_strlit("SenderModelName");
    reveal_strlit("SenderID");
    reveal_strlit("ConvertMediaFormats");
    reveal_strlit("Files");
}

fn ask_file(name: &str, mime: &str) -> (value: plist::Value)
    ensures
        tree_of(value) == ask_file_tree(name@, mime@),
{
    let mut path = "./".to_owned();
    path.append(name);
    let mut file = dict_new();
    dict_insert(&mut file, "FileName", text_value(name));
    dict_insert(&mut file, "FileType", text_value(uniform_type(mime)));
    dict_insert(&mut file, "FileBomPath", text_value(path.as_str()));
    dict_insert(&mut file, "FileIsDirectory", flag_value(false));
    dict_insert(&mut file, "ConvertMediaFormats", flag_value(false));
    proof {
        lemma_file_keys();
        let e0 = Seq::<(Seq<char>, Tree)>::empty();
        let e1 = e0.push(("FileName"@, Tree::Text(name@)));
        let e2 = e1.push(("FileType"@, Tree::Text(uniform_type_name(mime@))));
        let e3 = e2.push(("FileBomPath"@, Tree::Text("./"@ + name@)));
        let e4 = e3.push(("FileIsDirectory"@, Tree::Flag(false)));
        lemma_new_key(e0, "FileName"@, Tree::Text(name@));
        lemma_new_key(e1, "FileType"@, Tree::Text(uniform_type_name(mime@)));
        lemma_new_key(e2, "FileBomPath"@, Tree::Text("./"@ + name@));
        lemma_new_key(e3, "FileIsDirectory"@, Tree::Flag(false));
        lemma_new_key(e4, "ConvertMediaFormats"@, Tree::Flag(false));
        assert(ask_file_tree(name@, mime@)->Dict_0 =~= e4.push(
            ("ConvertMediaFormats"@, Tree::Flag(false)),
        ));
    }
    dict_value(file)
}

/// What a receiver reads of an ask: the sender's name and id, and the names of
/// the files in their order.
pub open spec fn told(
    sender_name: Seq<char>,
    sender_id: Seq<char>,
    files: Seq<(Seq<char>, Seq<char>)>,
) -> AskView {
    AskView { sender_name, sender_id, files: Seq::new(files.len(), |i: int| files[i].0) }
}

/// Asks to send files, given by their names and media types. [`parse_ask`] reads
/// the names back.
pub fn ask_request(sender_name: &str, sender_id: &str, files: &[(String, String)]) -> (bytes: Result<
    Vec<u8>,
>)
    ensures
        written(bytes, ask_tree(sender_name@, sender_id@, pairs_view(files@))),
        files@.len() > 0 ==> forall|ask: Result<Ask>| #[trigger]
            asked(ask, bytes->Ok_0@) ==> ask is Ok && ask->Ok_0@ == told(
                sender_name@,
                sender_id@,
                pairs_view(files@),
            ),
{
    let mut root = dict_new();
    dict_insert(&mut root, "SenderComputerName", text_value(sender_name));
    dict_insert(&mut root, "BundleID", text_value("com.apple.finder"));
    dict_insert(&mut root, "SenderModelName", text_value("Crossdrop"));
    dict_insert(&mut root, "SenderID", text_value(sender_id));
    dict_insert(&mut root, "ConvertMediaFormats", flag_value(false));
    let mut entries: Vec<plist::Value> = Vec::new();
    let ghost pairs = pairs_view(files@);
    let ghost trees = Seq::new(pairs.len(), |i: int| ask_file_tree(pairs[i].0, pairs[i].1));
    for i in 0..files.len()
        invariant
            pairs == pairs_view(files@),
            trees.len() == pairs.len(),
            forall|j: int|
                0 <= j < trees.len() ==> #[trigger] trees[j] == ask_file_tree(
                    pairs[j].0,
                    pairs[j].1,
                ),
            trees_of(entries@) == trees.take(i as int),
    {
        let (name, mime) = &files[i];
        let ghost before = entries@;
        let entry = ask_file(name.as_str(), mime.as_str());
        entries.push(entry);
        assert(trees[i as int] == tree_of(entry));
        assert(trees_of(entries@) =~= trees_of(before).push(tree_of(entry)));
        assert(trees.take(i + 1) =~= trees.take(i as int).push(trees[i as int]));
    }
    assert(trees_of(entries@) =~= trees);
    dict_insert(&mut root, "Files", list_value(entries));
    proof {
        lemma_ask_keys();
        let e0 = Seq::<(Seq<char>, Tree)>::empty();
        let e1 = e0.push(("SenderComputerName"@, Tree::Text(sender_name@)));
        let e2 = e1.push(("BundleID"@, Tree::Text("com.apple.finder"@)));
        let e3 = e2.push(("SenderModelName"@, Tree::Text("Crossdrop"@)));
        let e4 = e3.push(("SenderID"@, Tree::Text(sender_id@)));
        let e5 = e4.push(("ConvertMediaFormats"@, Tree::Flag(false)));
        lemma_new_key(e0, "SenderComputerName"@, Tree::Text(sender_name@));
        lemma_new_key(e1, "BundleID"@, Tree::Text("com.apple.finder"@));
        lemma_new_key(e2, "SenderModelName"@, Tree::Text("Crossdrop"@));
        lemma_new_key(e3, "SenderID"@, Tree::Text(sender_id@));
        lemma_new_key(e4, "ConvertMediaFormats"@, Tree::Flag(false));
        lemma_new_key(e5, "Files"@, Tree::List(trees));
        assert(ask_tree(sender_name@, sender_id@, pairs)->Dict_0 =~= e5.push(
            ("Files"@, Tree::List(trees)),
        ));
        assert forall|i: int| 0 <= i < trees.len() implies is_plain(#[trigger] trees[i]) by {
            lemma_plain_file(pairs[i].0, pairs[i].1);
        }
        assert(is_plain(Tree::List(trees)));
        reveal_with_fuel(is_plain, 2);
        if files@.len() > 0 {
            ask_is_understood(sender_name@, sender_id@, pairs);
        }
    }
    write_plist(root)
}

proof fn lemma_plain_file(name: Seq<char>, mime: Seq<char>)
    ensures
        is_plain(ask_file_tree(name, mime)),
{
    reveal_with_fuel(is_plain, 2);
}

fn text_of(dict: &plist::Dictionary, key: &str, or: &str) -> (text: String)
    ensures
        text@ == text_or(entries_of(*dict), key@, or@),
{
    match dict_get(dict, key) {
        Some(value) => match as_text(value) {
            Some(text) => text.to_owned(),
            None => or.to_owned(),
        },
        None => or.to_owned(),
    }
}

fn files_of(items: &Vec<plist::Value>) -> (files: Option<Vec<AskFile>>)
    ensures
        match file_names(trees_of(items@)) {
            Some(names) => files is Some && seq_view(files->0@) == names,
            None => files is None,
        },
{
    let mut files: Vec<AskFile> = Vec::new();
    let ghost trees = trees_of(items@);
    assert(trees.take(0) =~= Seq::empty());
    assert(seq_view(files@) =~= Seq::empty());
    for i in 0..items.len()
        invariant
            trees == trees_of(items@),
            file_names(trees.take(i as int)) == Some(seq_view(files@)),
    {
        let ghost before = files@;
        assert(trees.take(i + 1).drop_last() =~= trees.take(i as int));
        assert(trees.take(i + 1).last() == tree_of(items@[i as int]));
        proof {
            lemma_bad_file(trees, i + 1);
        }
        if let Some(file) = as_dict(&items[i]) {
            let name = match dict_get(file, "FileName") {
                Some(value) => as_text(value),
                None => None,
            };
            match name {
                Some(name) => {
                    let next = AskFile { name: name.to_owned() };
                    files.push(next);
                    assert(seq_view(files@) =~= seq_view(before).push(next@));
                },
                None => return None,
            }
        }
    }
    assert(trees.take(trees.len() as int) =~= trees);
    Some(files)
}

proof fn lemma_bad_file(items: Seq<Tree>, len: int)
    requires
        0 <= len <= items.len(),
    ensures
        file_names(items.take(len)) is None ==> file_names(items) is None,
    decreases items.len(),
{
    if len < items.len() {
        lemma_bad_file(items.drop_last(), len);
        assert(items.drop_last().take(len) =~= items.take(len));
    } else {
        assert(items.take(len) =~= items);
    }
}

/// The outcome of reading the body of an ask.
pub open spec fn asked(ask: Result<Ask>, body: Seq<u8>) -> bool {
    match tree_in(body) {
        None => ask is Err && ask->Err_0@ is Protocol && begins_with(
            ask->Err_0@->Protocol_0,
            "ask plist: "@,
        ),
        Some(tree) => match read_ask(tree) {
            Ok(expected) => ask is Ok && ask->Ok_0@ == expected,
            Err(error) => ask is Err && ask->Err_0@ == error,
        },
    }
}

/// Reads the body of an ask.
pub fn parse_ask(body: &[u8]) -> (ask: Result<Ask>)
    ensures
        asked(ask, body@),
{
    match from_bytes(body) {
        Ok(value) => ask_of(&value),
        Err(text) => {
            let mut message = "ask plist: ".to_owned();
            message.append(text.as_str());
            assert(message@.take("ask plist: "@.len() as int) =~= "ask plist: "@);
            Err(Error::Protocol(message))
        },
    }
}

/// Reads an ask from a property list.
pub fn ask_of(value: &plist::Value) -> (ask: Result<Ask>)
    ensures
        match read_ask(tree_of(*value)) {
            Ok(expected) => ask is Ok && ask->Ok_0@ == expected,
            Err(error) => ask is Err && ask->Err_0@ == error,
        },
{
    let dict = match as_dict(value) {
        Some(dict) => dict,
        None => return Err(Error::protocol("ask body is not a dictionary")),
    };
    let sender_name = text_of(dict, "SenderComputerName", "Apple device");
    let sender_id = text_of(dict, "SenderID", "");
    proof {
        reveal_strlit("");
        assert(""@ =~= Seq::empty());
    }
    let list = match dict_get(dict, "Files") {
        Some(value) => as_list(value),
        None => None,
    };
    let files = match list {
        Some(items) => match files_of(items) {
            Some(files) => files,
            None => return Err(Error::protocol("ask file is missing FileName")),
        },
        None => return Err(Error::protocol("ask request has no files")),
    };
    if files.len() == 0 {
        return Err(Error::protocol("ask request has no files"));
    }
    Ok(Ask { sender_name, sender_id, files })
}

/// What a sender asks is what a receiver reads: the sender's name and id, and
/// the names of the files in their order.
pub proof fn ask_is_understood(
    sender_name: Seq<char>,
    sender_id: Seq<char>,
    files: Seq<(Seq<char>, Seq<char>)>,
)
    requires
        files.len() > 0,
    ensures
        read_ask(ask_tree(sender_name, sender_id, files)) == Ok::<AskView, ErrorView>(
            told(sender_name, sender_id, files),
        ),
{
    let entries = ask_tree(sender_name, sender_id, files)->Dict_0;
    let trees = Seq::new(files.len(), |i: int| ask_file_tree(files[i].0, files[i].1));
    lemma_ask_keys();
    lemma_found_key(entries, 0);
    lemma_found_key(entries, 3);
    lemma_found_key(entries, 5);
    assert(entries[5].1 == Tree::List(trees));
    lemma_asked_names(files, files.len() as int);
    assert(trees.take(files.len() as int) =~= trees);
    assert(Seq::new(files.len(), |i: int| files[i].0) =~= asked_names(files).take(
        files.len() as int,
    ));
}

spec fn asked_names(files: Seq<(Seq<char>, Seq<char>)>) -> Seq<Seq<char>> {
    Seq::new(files.len(), |i: int| files[i].0)
}

proof fn lemma_asked_names(files: Seq<(Seq<char>, Seq<char>)>, len: int)
    requires
        0 <= len <= files.len(),
    ensures
        file_names(
            Seq::new(files.len(), |i: int| ask_file_tree(files[i].0, files[i].1)).take(len),
        ) == Some(asked_names(files).take(len)),
    decreases len,
{
    let trees = Seq::new(files.len(), |i: int| ask_file_tree(files[i].0, files[i].1));
    if len > 0 {
        lemma_asked_names(files, len - 1);
        assert(trees.take(len).drop_last() =~= trees.take(len - 1));
        let entries = ask_file_tree(files[len - 1].0, files[len - 1].1)->Dict_0;
        lemma_file_keys();
        lemma_found_key(entries, 0);
        assert(asked_names(files).take(len) =~= asked_names(files).take(len - 1).push(
            files[len - 1].0,
        ));
    } else {
        assert(trees.take(0) =~= Seq::empty());
        assert(asked_names(files).take(0) =~= Seq::empty());
    }
}

/// Reads the files of an upload.
pub fn extract_upload(body: &[u8], content_type: &str, max_bytes: u64) -> (entries: Result<
    Vec<ArchiveEntry>,
>)
    ensures
        match upload_files(body@, content_type@, max_bytes) {
            Some(Ok(expected)) => entries is Ok && seq_view(entries->Ok_0@) == expected,
            Some(Err(error)) => entries is Err && entries->Err_0@ == error,
            None => entries is Err && broken_stream(entries->Err_0@),
        },
{
    unpack(body, content_type, max_bytes)
}

/// Packs files for an upload. [`extract_upload`] gives them back.
pub fn build_upload(files: &[(String, Vec<u8>)]) -> (packed: Result<Vec<u8>>)
    ensures
        match pack_objection(files_view(files@)) {
            Some(error) => packed is Err && packed->Err_0@ == error,
            None => {
                &&& packed is Ok
                &&& packed->Ok_0@ == gzipped(archive_bytes(files_view(files@)))
                &&& names_stay(files_view(files@)) ==> reads_back(
                    packed->Ok_0@,
                    files_view(files@),
                )
            },
        },
{
    pack_gzip(files)
}

/// The media type and the uniform type identifier of a file.
pub fn describe(name: &str, bytes: &[u8]) -> (types: (String, String))
    ensures
        types.0@ == sniffed(bytes@, name@).1,
        types.1@ == uniform_type_name(sniffed(bytes@, name@).1),
{
    let (_, mime) = sniff(bytes, name);
    (mime.to_owned(), uniform_type(mime).to_owned())
}

} // verus!
