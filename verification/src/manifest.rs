//! The extension descriptor and its tolerant, line-oriented parser.
//!
//! A descriptor is scanned line by line for a fixed set of opening tags and
//! attributes. For every field the first line that offers a value decides;
//! what later lines offer for the same field is ignored. Only a missing
//! identifier makes parsing fail.

use crate::text::{
    char_uppercase, first_index_of, lowercase, occurs_at, occurs_in, pieces, trimmed, uppercase,
    views, Separator,
};
use crate::text::{
    chars_of, contains, find, is_word, lower, split, string_of, trim, upper, upper_of_char,
};
use vstd::prelude::*;
use vstd::slice::{slice_subrange, slice_to_vec};

verus! {

/// A host application that an extension declares itself compatible with.
#[derive(Debug)]
pub struct HostApp {
    /// The host's display name.
    pub name: String,
    /// The supported version, or `All`.
    pub version: String,
}

/// The mathematical value of a [`HostApp`].
pub struct HostAppView {
    pub name: Seq<char>,
    pub version: Seq<char>,
}

impl View for HostApp {
    type V = HostAppView;

    open spec fn view(&self) -> HostAppView {
        HostAppView { name: self.name@, version: self.version@ }
    }
}

impl Clone for HostApp {
    fn clone(&self) -> (r: Self)
        ensures
            r@ == self@,
    {
        HostApp { name: self.name.clone(), version: self.version.clone() }
    }
}

/// What a descriptor says of an extension, and where the extension was found.
#[derive(Debug)]
pub struct ExtensionInfo {
    /// The identifier; never empty.
    pub id: String,
    /// The display name.
    pub name: String,
    /// The version, or `Unknown`.
    pub version: String,
    pub description: String,
    pub author: String,
    /// The declared hosts, in the order of the descriptor.
    pub host_list: Vec<HostApp>,
    /// The minimum runtime version.
    pub cep_version: String,
    /// The directory the extension is installed in, once known.
    pub install_path: Option<String>,
    /// The extension's icon file, if one was found.
    pub icon_path: Option<String>,
}

/// The mathematical value of an [`ExtensionInfo`].
pub struct ExtensionInfoView {
    pub id: Seq<char>,
    pub name: Seq<char>,
    pub version: Seq<char>,
    pub description: Seq<char>,
    pub author: Seq<char>,
    pub host_list: Seq<HostAppView>,
    pub cep_version: Seq<char>,
    pub install_path: Option<Seq<char>>,
    pub icon_path: Option<Seq<char>>,
}

/// The text that an optional string holds.
pub open spec fn text_of(o: Option<String>) -> Option<Seq<char>> {
    match o {
        Some(s) => Some(s@),
        None => None,
    }
}

/// The values of a list of hosts.
pub open spec fn hosts_of(hosts: Seq<HostApp>) -> Seq<HostAppView> {
    hosts.map_values(|h: HostApp| h@)
}

impl View for ExtensionInfo {
    type V = ExtensionInfoView;

    open spec fn view(&self) -> ExtensionInfoView {
        ExtensionInfoView {
            id: self.id@,
            name: self.name@,
            version: self.version@,
            description: self.description@,
            author: self.author@,
            host_list: hosts_of(self.host_list@),
            cep_version: self.cep_version@,
            install_path: text_of(self.install_path),
            icon_path: text_of(self.icon_path),
        }
    }
}

impl ExtensionInfo {
    /// The invariant of a descriptor: its identifier is not empty.
    pub open spec fn well_formed(&self) -> bool {
        self.id@.len() > 0
    }
}

/// A copy of a list of hosts.
pub fn clone_hosts(hosts: &Vec<HostApp>) -> (r: Vec<HostApp>)
    ensures
        hosts_of(r@) == hosts_of(hosts@),
{
    let mut out: Vec<HostApp> = Vec::new();
    let mut i: usize = 0;
    while i < hosts.len()
        invariant
            i <= hosts@.len(),
            hosts_of(out@) == hosts_of(hosts@.take(i as int)),
        decreases hosts@.len() - i,
    {
        let ghost before = out@;
        out.push(hosts[i].clone());
        assert(hosts_of(out@) =~= hosts_of(before).push(hosts@[i as int]@));
        assert(hosts_of(hosts@.take(i + 1)) =~= hosts_of(hosts@.take(i as int)).push(
            hosts@[i as int]@,
        ));
        i += 1;
    }
    assert(hosts@.take(i as int) =~= hosts@);
    out
}

/// A copy of an optional string.
pub fn clone_text(o: &Option<String>) -> (r: Option<String>)
    ensures
        text_of(r) == text_of(*o),
{
    match o {
        Some(s) => Some(s.clone()),
        None => None,
    }
}

impl Clone for ExtensionInfo {
    fn clone(&self) -> (r: Self)
        ensures
            r@ == self@,
    {
        ExtensionInfo {
            id: self.id.clone(),
            name: self.name.clone(),
            version: self.version.clone(),
            description: self.description.clone(),
            author: self.author.clone(),
            host_list: clone_hosts(&self.host_list),
            cep_version: self.cep_version.clone(),
            install_path: clone_text(&self.install_path),
            icon_path: clone_text(&self.icon_path),
        }
    }
}

/// The value that follows `attr`, an equals sign and the opening `quote` in
/// `line`, up to the next `quote`, trimmed. There is none where the pattern
/// does not occur, where no closing quote follows its first occurrence, or
/// where the trimmed value is empty.
pub open spec fn quoted_value(line: Seq<char>, attr: Seq<char>, quote: char) -> Option<Seq<char>> {
    let pattern = attr.push('=').push(quote);
    match first_index_of(line, pattern) {
        None => None,
        Some(start) => {
            let rest = line.skip(start + pattern.len());
            match first_index_of(rest, seq![quote]) {
                None => None,
                Some(end) => {
                    let value = trimmed(rest.take(end));
                    if value.len() > 0 {
                        Some(value)
                    } else {
                        None
                    }
                },
            }
        },
    }
}

/// The value of the attribute `attr` in `line`: the double-quoted form where
/// it gives a value, else the single-quoted form.
pub open spec fn attr_value(line: Seq<char>, attr: Seq<char>) -> Option<Seq<char>> {
    match quoted_value(line, attr, '"') {
        Some(v) => Some(v),
        None => quoted_value(line, attr, '\''),
    }
}

/// The trimmed text between the first `<tag>` and the first `</tag>` of
/// `line`; empty where either is missing or the closing tag does not come
/// after the opening one.
pub open spec fn element_text(line: Seq<char>, tag: Seq<char>) -> Seq<char> {
    let open = seq!['<'] + tag + seq!['>'];
    let close = seq!['<', '/'] + tag + seq!['>'];
    match (first_index_of(line, open), first_index_of(line, close)) {
        (Some(s), Some(e)) => {
            if s + open.len() < e {
                trimmed(line.subrange(s + open.len(), e))
            } else {
                Seq::<char>::empty()
            }
        },
        _ => Seq::<char>::empty(),
    }
}

/// The display name of a host, given its code as written (`raw`) and in
/// upper case (`upper`). A code that is not known stands for itself.
pub open spec fn host_display_name(upper: Seq<char>, raw: Seq<char>) -> Seq<char> {
    if upper == "PPRO"@ || upper == "PREMIERE"@ {
        "Premiere Pro"@
    } else if upper == "AEFT"@ || upper == "AFTEREFFECTS"@ {
        "After Effects"@
    } else if upper == "ILST"@ || upper == "ILLUSTRATOR"@ {
        "Illustrator"@
    } else if upper == "PHSP"@ || upper == "PHOTOSHOP"@ {
        "Photoshop"@
    } else if upper == "AUDE"@ || upper == "AUDITION"@ {
        "Audition"@
    } else if upper == "DRWV"@ || upper == "DREAMWEAVER"@ {
        "Dreamweaver"@
    } else if upper == "FLPR"@ || upper == "ANIMATE"@ {
        "Animate"@
    } else if upper == "IDSN"@ || upper == "INDESIGN"@ {
        "InDesign"@
    } else if upper == "RUSH"@ || upper == "PREMIERERUSH"@ {
        "Premiere Rush"@
    } else if upper == "CHAR"@ || upper == "CHARACTER"@ {
        "Character Animator"@
    } else {
        raw
    }
}

fn quoted_in<'a>(line: &'a [char], attr: &[char], quote: char) -> (r: Option<&'a [char]>)
    ensures
        match r {
            Some(v) => quoted_value(line@, attr@, quote) == Some(v@),
            None => quoted_value(line@, attr@, quote) is None,
        },
{
    let mut pattern = slice_to_vec(attr);
    pattern.push('=');
    pattern.push(quote);
    match find(line, pattern.as_slice()) {
        None => None,
        Some(start) => {
            let total = line.len();
            assert(occurs_at(line@, pattern@, start as int));
            let rest = slice_subrange(line, start + pattern.len(), total);
            let mut closing: Vec<char> = Vec::new();
            closing.push(quote);
            assert(closing@ =~= seq![quote]);
            match find(rest, closing.as_slice()) {
                None => None,
                Some(end) => {
                    let value = trim(slice_subrange(rest, 0, end));
                    if value.len() > 0 {
                        Some(value)
                    } else {
                        None
                    }
                },
            }
        },
    }
}

/// The value of the attribute `attr` in `line`, as a part of `line`.
pub fn attr_in<'a>(line: &'a [char], attr: &[char]) -> (r: Option<&'a [char]>)
    ensures
        match r {
            Some(v) => attr_value(line@, attr@) == Some(v@),
            None => attr_value(line@, attr@) is None,
        },
{
    match quoted_in(line, attr, '"') {
        Some(v) => Some(v),
        None => quoted_in(line, attr, '\''),
    }
}

/// The text of the element `tag` in `line`, as a part of `line`.
pub fn text_in<'a>(line: &'a [char], tag: &[char]) -> (r: &'a [char])
    ensures
        r@ == element_text(line@, tag@),
{
    let mut open: Vec<char> = Vec::new();
    open.push('<');
    let mut close: Vec<char> = Vec::new();
    close.push('<');
    close.push('/');
    let mut i: usize = 0;
    while i < tag.len()
        invariant
            i <= tag@.len(),
            open@ == seq!['<'] + tag@.take(i as int),
            close@ == seq!['<', '/'] + tag@.take(i as int),
        decreases tag@.len() - i,
    {
        open.push(tag[i]);
        close.push(tag[i]);
        assert(tag@.take(i + 1) =~= tag@.take(i as int).push(tag@[i as int]));
        i += 1;
    }
    assert(tag@.take(i as int) =~= tag@);
    open.push('>');
    close.push('>');
    assert(open@ =~= seq!['<'] + tag@ + seq!['>']);
    assert(close@ =~= seq!['<', '/'] + tag@ + seq!['>']);
    match (find(line, open.as_slice()), find(line, close.as_slice())) {
        (Some(s), Some(e)) => {
            if e > open.len() && s < e - open.len() {
                trim(slice_subrange(line, s + open.len(), e))
            } else {
                slice_subrange(line, 0, 0)
            }
        },
        _ => slice_subrange(line, 0, 0),
    }
}

/// Reads the value of the attribute `attr` from `line`: what stands between
/// the quotes after `attr=`, trimmed, if it is not empty.
pub fn extract_attr(line: &str, attr: &str) -> (r: Option<String>)
    ensures
        text_of(r) == attr_value(line@, attr@),
{
    let l = chars_of(line);
    let a = chars_of(attr);
    match attr_in(l.as_slice(), a.as_slice()) {
        Some(v) => Some(string_of(v)),
        None => None,
    }
}

/// Reads the text of the element `tag` from `line`: what stands between
/// `<tag>` and `</tag>`, trimmed; empty where there is no such text.
pub fn extract_text(line: &str, tag: &str) -> (r: String)
    ensures
        r@ == element_text(line@, tag@),
{
    let l = chars_of(line);
    let t = chars_of(tag);
    string_of(text_in(l.as_slice(), t.as_slice()))
}

/// The display name of the host whose code is `raw` and whose code in upper
/// case is `upper`.
pub fn host_name_for(upper: &[char], raw: &[char]) -> (r: String)
    ensures
        r@ == host_display_name(upper@, raw@),
{
    if is_word(upper, "PPRO") || is_word(upper, "PREMIERE") {
        "Premiere Pro".to_string()
    } else if is_word(upper, "AEFT") || is_word(upper, "AFTEREFFECTS") {
        "After Effects".to_string()
    } else if is_word(upper, "ILST") || is_word(upper, "ILLUSTRATOR") {
        "Illustrator".to_string()
    } else if is_word(upper, "PHSP") || is_word(upper, "PHOTOSHOP") {
        "Photoshop".to_string()
    } else if is_word(upper, "AUDE") || is_word(upper, "AUDITION") {
        "Audition".to_string()
    } else if is_word(upper, "DRWV") || is_word(upper, "DREAMWEAVER") {
        "Dreamweaver".to_string()
    } else if is_word(upper, "FLPR") || is_word(upper, "ANIMATE") {
        "Animate".to_string()
    } else if is_word(upper, "IDSN") || is_word(upper, "INDESIGN") {
        "InDesign".to_string()
    } else if is_word(upper, "RUSH") || is_word(upper, "PREMIERERUSH") {
        "Premiere Rush".to_string()
    } else if is_word(upper, "CHAR") || is_word(upper, "CHARACTER") {
        "Character Animator".to_string()
    } else {
        string_of(raw)
    }
}

/// Maps a host code, in any letter case, to the host's display name.
pub fn format_host_name(raw: &str) -> (r: String)
    ensures
        r@ == host_display_name(uppercase(raw@), raw@),
{
    let code = chars_of(raw);
    let folded = upper(code.as_slice());
    host_name_for(folded.as_slice(), code.as_slice())
}

/// A field of the descriptor that holds one text.
#[derive(Clone, Copy, Debug)]
pub enum Field {
    Id,
    Name,
    Version,
    Description,
    Author,
    CepVersion,
}

/// `lower` is one of the words that name a panel's kind and not an extension.
pub open spec fn generic_word(lower: Seq<char>) -> bool {
    ||| lower == "main"@
    ||| lower == "panel"@
    ||| lower == "extension"@
    ||| lower == "index"@
    ||| lower == "ui"@
    ||| lower == "app"@
    ||| lower == "core"@
    ||| lower == "popup"@
}

/// `lower` is one of the usual top-level domains.
pub open spec fn domain_word(lower: Seq<char>) -> bool {
    ||| lower == "com"@
    ||| lower == "net"@
    ||| lower == "org"@
    ||| lower == "io"@
}

/// The line opens the primary element.
pub open spec fn extension_line(line: Seq<char>) -> bool {
    occurs_in(line, "<Extension "@)
}

/// The line opens the manifest or the bundle element.
pub open spec fn bundle_line(line: Seq<char>) -> bool {
    occurs_in(line, "<ExtensionManifest"@) || occurs_in(line, "<ExtensionBundle"@)
}

/// The line opens the list element.
pub open spec fn list_line(line: Seq<char>) -> bool {
    occurs_in(line, "<ExtensionList>"@)
}

/// `value` where `condition` holds.
pub open spec fn only_if(condition: bool, value: Option<Seq<char>>) -> Option<Seq<char>> {
    if condition {
        value
    } else {
        None
    }
}

/// `first` where it is a value, else `second`.
pub open spec fn or_else(first: Option<Seq<char>>, second: Option<Seq<char>>) -> Option<
    Seq<char>,
> {
    match first {
        Some(v) => Some(v),
        None => second,
    }
}

/// `t` where it is not empty.
pub open spec fn non_empty(t: Seq<char>) -> Option<Seq<char>> {
    if t.len() > 0 {
        Some(t)
    } else {
        None
    }
}

/// The text of the internal-name element as a display name: only where it is
/// not empty and, in lower case, not a generic word.
pub open spec fn name_candidate(t: Seq<char>) -> Option<Seq<char>> {
    if t.len() > 0 && !generic_word(lowercase(t)) {
        Some(t)
    } else {
        None
    }
}

/// What the trimmed `line` offers for `field`, its sources taken in their
/// order of priority.
pub open spec fn offer(field: Field, line: Seq<char>) -> Option<Seq<char>> {
    match field {
        Field::Id => or_else(
            only_if(extension_line(line), attr_value(line, "Id"@)),
            or_else(
                only_if(bundle_line(line), attr_value(line, "ExtensionBundleId"@)),
                only_if(list_line(line), attr_value(line, "ExtensionBundleId"@)),
            ),
        ),
        Field::Version => or_else(
            only_if(extension_line(line), attr_value(line, "Version"@)),
            only_if(bundle_line(line), attr_value(line, "ExtensionBundleVersion"@)),
        ),
        Field::CepVersion => only_if(bundle_line(line), attr_value(line, "CEPVersion"@)),
        Field::Name => or_else(
            only_if(bundle_line(line), attr_value(line, "ExtensionBundleName"@)),
            or_else(
                only_if(occurs_in(line, "<Menu>"@), non_empty(element_text(line, "Menu"@))),
                only_if(occurs_in(line, "<Name>"@), name_candidate(element_text(line, "Name"@))),
            ),
        ),
        Field::Description => only_if(
            occurs_in(line, "<Description>"@),
            non_empty(element_text(line, "Description"@)),
        ),
        Field::Author => only_if(
            occurs_in(line, "<Author>"@),
            non_empty(element_text(line, "Author"@)),
        ),
    }
}

/// What the first of `lines` that offers anything for `field` offers.
pub open spec fn first_offer(field: Field, lines: Seq<Seq<char>>) -> Option<Seq<char>>
    decreases lines.len(),
{
    if lines.len() == 0 {
        None
    } else {
        or_else(first_offer(field, lines.drop_last()), offer(field, lines.last()))
    }
}

/// The host that the trimmed `line` declares: one whose code is not empty,
/// under its display name, with the version `All` where none is given.
pub open spec fn host_offer(line: Seq<char>) -> Option<HostAppView> {
    if occurs_in(line, "<Host "@) {
        match attr_value(line, "Name"@) {
            Some(code) => Some(
                HostAppView {
                    name: host_display_name(uppercase(code), code),
                    version: match attr_value(line, "Version"@) {
                        Some(v) => v,
                        None => "All"@,
                    },
                },
            ),
            None => None,
        }
    } else {
        None
    }
}

/// The hosts that `lines` declare, in order.
pub open spec fn host_bindings(lines: Seq<Seq<char>>) -> Seq<HostAppView>
    decreases lines.len(),
{
    if lines.len() == 0 {
        Seq::<HostAppView>::empty()
    } else {
        let before = host_bindings(lines.drop_last());
        match host_offer(lines.last()) {
            Some(h) => before.push(h),
            None => before,
        }
    }
}

/// The lines of a descriptor: its pieces between line feeds, each trimmed.
pub open spec fn lines_of(text: Seq<char>) -> Seq<Seq<char>> {
    pieces(text, Separator::Char('\n')).map_values(|l: Seq<char>| trimmed(l))
}

/// A segment of an identifier that can serve as a name: longer than two
/// characters and, in lower case, neither a generic word nor a domain.
pub open spec fn eligible(part: Seq<char>) -> bool {
    part.len() > 2 && !generic_word(lowercase(part)) && !domain_word(lowercase(part))
}

/// The last of `parts` that is eligible.
pub open spec fn last_eligible(parts: Seq<Seq<char>>) -> Option<Seq<char>>
    decreases parts.len(),
{
    if parts.len() == 0 {
        None
    } else if eligible(parts.last()) {
        Some(parts.last())
    } else {
        last_eligible(parts.drop_last())
    }
}

/// `s` with every hyphen and underscore replaced by a space.
pub open spec fn spaced(s: Seq<char>) -> Seq<char> {
    s.map_values(
        |c: char|
            if c == '-' || c == '_' {
                ' '
            } else {
                c
            },
    )
}

/// The word `w` with its first character in upper case.
pub open spec fn capitalized(w: Seq<char>) -> Seq<char> {
    if w.len() == 0 {
        w
    } else {
        char_uppercase(w[0]) + w.skip(1)
    }
}

/// Those of `parts` that are not empty, in order.
pub open spec fn words(parts: Seq<Seq<char>>) -> Seq<Seq<char>>
    decreases parts.len(),
{
    if parts.len() == 0 {
        Seq::<Seq<char>>::empty()
    } else if parts.last().len() > 0 {
        words(parts.drop_last()).push(parts.last())
    } else {
        words(parts.drop_last())
    }
}

/// `ws` with its words capitalized and one space between any two.
pub open spec fn titled(ws: Seq<Seq<char>>) -> Seq<char>
    decreases ws.len(),
{
    if ws.len() == 0 {
        Seq::<char>::empty()
    } else if ws.len() == 1 {
        capitalized(ws[0])
    } else {
        titled(ws.drop_last()) + seq![' '] + capitalized(ws.last())
    }
}

/// The words of `s`, each with its first character in upper case, joined by
/// single spaces.
pub open spec fn title_cased(s: Seq<char>) -> Seq<char> {
    titled(words(pieces(s, Separator::Whitespace)))
}

/// The display name derived from an identifier: its last eligible segment
/// between dots, or its last segment where none is eligible, in title case.
pub open spec fn fallback_name(id: Seq<char>) -> Seq<char> {
    let parts = pieces(id, Separator::Char('.'));
    let raw = match last_eligible(parts) {
        Some(p) => p,
        None => parts.last(),
    };
    title_cased(spaced(raw))
}

/// What a descriptor says: the fields that its lines offer first, with the
/// name derived from the identifier and the version `Unknown` where no line
/// offers one. Without an identifier there is no descriptor.
pub open spec fn descriptor(text: Seq<char>) -> Result<ExtensionInfoView, Seq<char>> {
    let lines = lines_of(text);
    match first_offer(Field::Id, lines) {
        None => Err("Could not find extension ID in manifest"@),
        Some(id) => Ok(
            ExtensionInfoView {
                id,
                name: match first_offer(Field::Name, lines) {
                    Some(n) => n,
                    None => fallback_name(id),
                },
                version: match first_offer(Field::Version, lines) {
                    Some(v) => v,
                    None => "Unknown"@,
                },
                description: match first_offer(Field::Description, lines) {
                    Some(d) => d,
                    None => Seq::<char>::empty(),
                },
                author: match first_offer(Field::Author, lines) {
                    Some(a) => a,
                    None => Seq::<char>::empty(),
                },
                host_list: host_bindings(lines),
                cep_version: match first_offer(Field::CepVersion, lines) {
                    Some(c) => c,
                    None => Seq::<char>::empty(),
                },
                install_path: None,
                icon_path: None,
            },
        ),
    }
}

/// The value of an optional part of a line.
pub open spec fn part_of(o: Option<&[char]>) -> Option<Seq<char>> {
    match o {
        Some(s) => Some(s@),
        None => None,
    }
}

/// Whether `lower` is a generic word.
pub fn is_generic_word(lower: &[char]) -> (r: bool)
    ensures
        r == generic_word(lower@),
{
    is_word(lower, "main") || is_word(lower, "panel") || is_word(lower, "extension") || is_word(
        lower,
        "index",
    ) || is_word(lower, "ui") || is_word(lower, "app") || is_word(lower, "core") || is_word(
        lower,
        "popup",
    )
}

/// Whether `lower` is a domain word.
pub fn is_domain_word(lower: &[char]) -> (r: bool)
    ensures
        r == domain_word(lower@),
{
    is_word(lower, "com") || is_word(lower, "net") || is_word(lower, "org") || is_word(lower, "io")
}

fn mentions(line: &[char], pattern: &str) -> (r: bool)
    ensures
        r == occurs_in(line@, pattern@),
{
    let p = chars_of(pattern);
    contains(line, p.as_slice())
}

fn attr_named<'a>(line: &'a [char], attr: &str) -> (r: Option<&'a [char]>)
    ensures
        part_of(r) == attr_value(line@, attr@),
{
    let a = chars_of(attr);
    attr_in(line, a.as_slice())
}

fn text_named<'a>(line: &'a [char], tag: &str) -> (r: Option<&'a [char]>)
    ensures
        part_of(r) == non_empty(element_text(line@, tag@)),
{
    let t = chars_of(tag);
    let text = text_in(line, t.as_slice());
    if text.len() > 0 {
        Some(text)
    } else {
        None
    }
}

/// What the trimmed `line` offers for `field`, as a part of `line`.
pub fn offer_in<'a>(field: Field, line: &'a [char]) -> (r: Option<&'a [char]>)
    ensures
        part_of(r) == offer(field, line@),
{
    let on_extension = mentions(line, "<Extension ");
    let on_bundle = mentions(line, "<ExtensionManifest") || mentions(line, "<ExtensionBundle");
    match field {
        Field::Id => {
            let mut found: Option<&'a [char]> = None;
            if on_extension {
                found = attr_named(line, "Id");
            }
            if found.is_none() && on_bundle {
                found = attr_named(line, "ExtensionBundleId");
            }
            if found.is_none() && mentions(line, "<ExtensionList>") {
                found = attr_named(line, "ExtensionBundleId");
            }
            found
        },
        Field::Version => {
            let mut found: Option<&'a [char]> = None;
            if on_extension {
                found = attr_named(line, "Version");
            }
            if found.is_none() && on_bundle {
                found = attr_named(line, "ExtensionBundleVersion");
            }
            found
        },
        Field::CepVersion => {
            if on_bundle {
                attr_named(line, "CEPVersion")
            } else {
                None
            }
        },
        Field::Name => {
            let mut found: Option<&'a [char]> = None;
            if on_bundle {
                found = attr_named(line, "ExtensionBundleName");
            }
            if found.is_none() && mentions(line, "<Menu>") {
                found = text_named(line, "Menu");
            }
            if found.is_none() && mentions(line, "<Name>") {
                match text_named(line, "Name") {
                    Some(candidate) => {
                        let folded = lower(candidate);
                        if !is_generic_word(folded.as_slice()) {
                            found = Some(candidate);
                        }
                    },
                    None => {},
                }
            }
            found
        },
        Field::Description => {
            if mentions(line, "<Description>") {
                text_named(line, "Description")
            } else {
                None
            }
        },
        Field::Author => {
            if mentions(line, "<Author>") {
                text_named(line, "Author")
            } else {
                None
            }
        },
    }
}

/// The host that the trimmed `line` declares.
pub fn host_in(line: &[char]) -> (r: Option<HostApp>)
    ensures
        match r {
            Some(h) => host_offer(line@) == Some(h@),
            None => host_offer(line@) is None,
        },
{
    if !mentions(line, "<Host ") {
        return None;
    }
    match attr_named(line, "Name") {
        None => None,
        Some(code) => {
            let folded = upper(code);
            let name = host_name_for(folded.as_slice(), code);
            let version = match attr_named(line, "Version") {
                Some(v) => string_of(v),
                None => "All".to_string(),
            };
            Some(HostApp { name, version })
        },
    }
}

/// Whether `part` can serve as a name.
pub fn is_eligible(part: &[char]) -> (r: bool)
    ensures
        r == eligible(part@),
{
    if part.len() <= 2 {
        return false;
    }
    let folded = lower(part);
    !is_generic_word(folded.as_slice()) && !is_domain_word(folded.as_slice())
}

/// `s` in title case.
pub fn title_case(s: &[char]) -> (r: Vec<char>)
    ensures
        r@ == title_cased(s@),
{
    let parts = split(s, Separator::Whitespace);
    let mut out: Vec<char> = Vec::new();
    let mut started = false;
    let mut i: usize = 0;
    let ghost all = views(parts@);
    assert(all.take(0) =~= Seq::<Seq<char>>::empty());
    while i < parts.len()
        invariant
            i <= parts@.len(),
            all == views(parts@),
            out@ == titled(words(all.take(i as int))),
            started == (words(all.take(i as int)).len() > 0),
        decreases parts@.len() - i,
    {
        let w = parts[i];
        let ghost before = words(all.take(i as int));
        assert(all.take(i + 1).drop_last() =~= all.take(i as int));
        assert(all.take(i + 1).last() == w@);
        if w.len() > 0 {
            let ghost after = before.push(w@);
            assert(words(all.take(i + 1)) == after);
            assert(after.drop_last() =~= before);
            if started {
                out.push(' ');
            }
            let first = upper_of_char(w[0]);
            let mut k: usize = 0;
            let ghost base = out@;
            while k < first.len()
                invariant
                    k <= first@.len(),
                    out@ == base + first@.take(k as int),
                decreases first@.len() - k,
            {
                out.push(first[k]);
                assert(first@.take(k + 1) =~= first@.take(k as int).push(first@[k as int]));
                k += 1;
            }
            assert(first@.take(k as int) =~= first@);
            let mut j: usize = 1;
            let ghost mid = out@;
            assert(w@.skip(1).take(0) =~= Seq::<char>::empty());
            while j < w.len()
                invariant
                    1 <= j <= w@.len(),
                    out@ == mid + w@.skip(1).take(j - 1),
                decreases w@.len() - j,
            {
                out.push(w[j]);
                assert(w@.skip(1).take(j as int) =~= w@.skip(1).take(j - 1).push(w@[j as int]));
                j += 1;
            }
            assert(w@.skip(1).take(j - 1) =~= w@.skip(1));
            assert(out@ =~= base + capitalized(w@));
            started = true;
        }
        i += 1;
    }
    assert(all.take(i as int) =~= all);
    out
}

/// The display name derived from the identifier `id`.
pub fn derive_name(id: &[char]) -> (r: Vec<char>)
    ensures
        r@ == fallback_name(id@),
{
    let parts = split(id, Separator::Char('.'));
    let ghost all = views(parts@);
    let mut chosen: &[char] = parts[parts.len() - 1];
    let mut i: usize = parts.len();
    assert(all.take(i as int) =~= all);
    let mut found = false;
    while i > 0 && !found
        invariant
            i <= parts@.len(),
            all == views(parts@),
            parts@.len() >= 1,
            !found ==> last_eligible(all) == last_eligible(all.take(i as int)),
            !found ==> chosen@ == all.last(),
            found ==> last_eligible(all) == Some(chosen@),
        decreases i + (if found { 0int } else { 1int }),
    {
        let p = parts[i - 1];
        assert(all.take(i as int).last() == p@);
        assert(all.take(i as int).drop_last() =~= all.take(i - 1));
        if is_eligible(p) {
            chosen = p;
            found = true;
        } else {
            i -= 1;
        }
    }
    let mut raw: Vec<char> = Vec::new();
    let mut k: usize = 0;
    while k < chosen.len()
        invariant
            k <= chosen@.len(),
            raw@ == spaced(chosen@.take(k as int)),
        decreases chosen@.len() - k,
    {
        let c = chosen[k];
        let ghost before = raw@;
        if c == '-' || c == '_' {
            raw.push(' ');
        } else {
            raw.push(c);
        }
        assert(chosen@.take(k + 1) =~= chosen@.take(k as int).push(c));
        assert(raw@ =~= spaced(chosen@.take(k + 1)));
        k += 1;
    }
    assert(chosen@.take(k as int) =~= chosen@);
    title_case(raw.as_slice())
}

fn owned(o: Option<&[char]>) -> (r: String)
    ensures
        r@ == match o {
            Some(s) => s@,
            None => Seq::<char>::empty(),
        },
{
    match o {
        Some(s) => string_of(s),
        None => String::new(),
    }
}

/// Parses a descriptor. Every field holds what the first line that offers a
/// value for it offers; the call fails only where no line offers an
/// identifier.
pub fn parse_manifest_xml(xml: &str) -> (r: Result<ExtensionInfo, String>)
    ensures
        match r {
            Ok(info) => descriptor(xml@) == Ok::<ExtensionInfoView, Seq<char>>(info@)
                && info.well_formed(),
            Err(e) => descriptor(xml@) == Err::<ExtensionInfoView, Seq<char>>(e@) && e@.len() > 0,
        },
{
    let text = chars_of(xml);
    let raw = split(text.as_slice(), Separator::Char('\n'));
    let ghost lines = lines_of(xml@);
    let mut id: Option<&[char]> = None;
    let mut name: Option<&[char]> = None;
    let mut version: Option<&[char]> = None;
    let mut description: Option<&[char]> = None;
    let mut author: Option<&[char]> = None;
    let mut cep_version: Option<&[char]> = None;
    let mut hosts: Vec<HostApp> = Vec::new();
    let mut i: usize = 0;
    assert(lines.take(0) =~= Seq::<Seq<char>>::empty());
    while i < raw.len()
        invariant
            i <= raw@.len(),
            views(raw@) == pieces(text@, Separator::Char('\n')),
            text@ == xml@,
            lines == lines_of(xml@),
            part_of(id) == first_offer(Field::Id, lines.take(i as int)),
            part_of(name) == first_offer(Field::Name, lines.take(i as int)),
            part_of(version) == first_offer(Field::Version, lines.take(i as int)),
            part_of(description) == first_offer(Field::Description, lines.take(i as int)),
            part_of(author) == first_offer(Field::Author, lines.take(i as int)),
            part_of(cep_version) == first_offer(Field::CepVersion, lines.take(i as int)),
            hosts_of(hosts@) == host_bindings(lines.take(i as int)),
        decreases raw@.len() - i,
    {
        let line = trim(raw[i]);
        proof {
            assert(views(raw@)[i as int] == raw@[i as int]@);
            assert(lines[i as int] == line@);
            assert(lines.take(i + 1).drop_last() =~= lines.take(i as int));
            assert(lines.take(i + 1).last() == line@);
        }
        if id.is_none() {
            id = offer_in(Field::Id, line);
        }
        if name.is_none() {
            name = offer_in(Field::Name, line);
        }
        if version.is_none() {
            version = offer_in(Field::Version, line);
        }
        if description.is_none() {
            description = offer_in(Field::Description, line);
        }
        if author.is_none() {
            author = offer_in(Field::Author, line);
        }
        if cep_version.is_none() {
            cep_version = offer_in(Field::CepVersion, line);
        }
        match host_in(line) {
            Some(h) => {
                let ghost before = hosts@;
                hosts.push(h);
                assert(hosts_of(hosts@) =~= hosts_of(before).push(h@));
            },
            None => {},
        }
        i += 1;
    }
    assert(lines.take(i as int) =~= lines);
    match id {
        None => {
            proof {
                reveal_strlit("Could not find extension ID in manifest");
            }
            Err("Could not find extension ID in manifest".to_string())
        },
        Some(found) => {
            proof {
                lemma_offer_is_not_empty(Field::Id, lines);
            }
            let shown = match name {
                Some(n) => string_of(n),
                None => {
                    let derived = derive_name(found);
                    string_of(derived.as_slice())
                },
            };
            let number = match version {
                Some(v) => string_of(v),
                None => "Unknown".to_string(),
            };
            Ok(
                ExtensionInfo {
                    id: string_of(found),
                    name: shown,
                    version: number,
                    description: owned(description),
                    author: owned(author),
                    host_list: hosts,
                    cep_version: owned(cep_version),
                    install_path: None,
                    icon_path: None,
                },
            )
        },
    }
}

/// What a line offers for a field is never empty.
pub proof fn lemma_offer_is_not_empty(field: Field, lines: Seq<Seq<char>>)
    ensures
        first_offer(field, lines) matches Some(v) ==> v.len() > 0,
    decreases lines.len(),
{
    if lines.len() > 0 {
        lemma_offer_is_not_empty(field, lines.drop_last());
    }
}

/// A field holds what the first line that offers a value for it offers.
pub proof fn lemma_first_offer(field: Field, lines: Seq<Seq<char>>)
    ensures
        match first_offer(field, lines) {
            Some(v) => exists|i: int|
                0 <= i < lines.len() && offer(field, #[trigger] lines[i]) == Some(v) && forall|
                    j: int,
                | 0 <= j < i ==> offer(field, #[trigger] lines[j]) is None,
            None => forall|j: int|
                0 <= j < lines.len() ==> offer(field, #[trigger] lines[j]) is None,
        },
    decreases lines.len(),
{
    if lines.len() > 0 {
        let shorter = lines.drop_last();
        lemma_first_offer(field, shorter);
        assert forall|j: int| 0 <= j < shorter.len() implies shorter[j] == lines[j] by {}
        match first_offer(field, shorter) {
            Some(v) => {
                let i = choose|i: int|
                    0 <= i < shorter.len() && offer(field, #[trigger] shorter[i]) == Some(v)
                        && forall|j: int|
                        0 <= j < i ==> offer(field, #[trigger] shorter[j]) is None;
                assert(offer(field, lines[i]) == Some(v));
                assert forall|j: int| 0 <= j < i implies offer(
                    field,
                    #[trigger] lines[j],
                ) is None by {
                    assert(shorter[j] == lines[j]);
                }
            },
            None => {
                let last = lines.len() - 1;
                assert forall|j: int| 0 <= j < last implies offer(
                    field,
                    #[trigger] lines[j],
                ) is None by {
                    assert(shorter[j] == lines[j]);
                }
                if offer(field, lines.last()) is Some {
                    assert(offer(field, lines[last]) == first_offer(field, lines));
                }
            },
        }
    }
}

/// The invariant of a descriptor holds of every parsed one: its identifier
/// is not empty.
pub proof fn lemma_descriptor_has_identifier(text: Seq<char>)
    ensures
        descriptor(text) matches Ok(info) ==> info.id.len() > 0,
{
    lemma_offer_is_not_empty(Field::Id, lines_of(text));
}

/// A descriptor none of whose lines offers an identifier is rejected, with a
/// message that is not empty.
pub proof fn lemma_no_identifier_is_rejected(text: Seq<char>)
    requires
        forall|i: int|
            0 <= i < lines_of(text).len() ==> offer(Field::Id, #[trigger] lines_of(text)[i])
                is None,
    ensures
        descriptor(text) matches Err(message) && message.len() > 0,
{
    lemma_first_offer(Field::Id, lines_of(text));
    reveal_strlit("Could not find extension ID in manifest");
}

} // verus!
