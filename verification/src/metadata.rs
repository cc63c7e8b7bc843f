//! Package manifest metadata: tokens, records, the builder, and dependency
//! name extraction.

use vstd::prelude::*;
use vstd::string::*;

use crate::strutil::{split_lines, split_lines_spec};

verus! {

broadcast use vstd::string::group_string_axioms;

/// One recognized field line of a manifest header.
#[derive(Debug)]
pub enum MetadataTokens {
    Name(String),
    Version(String),
    Summary(String),
    Dependency(String),
}

/// Structured metadata of one package. `dependencies` is `None` when no
/// dependency line yielded a name, `Some` of the distinct names otherwise.
#[derive(Debug, PartialEq, Eq)]
pub struct Metadata {
    pub name: String,
    pub version: String,
    pub summary: String,
    pub dependencies: Option<Vec<String>>,
}

/// The mathematical shape of a `Metadata` record.
pub ghost struct MetadataView {
    pub name: Seq<char>,
    pub version: Seq<char>,
    pub summary: Seq<char>,
    pub dependencies: Option<Seq<Seq<char>>>,
}

impl View for Metadata {
    type V = MetadataView;

    open spec fn view(&self) -> MetadataView {
        MetadataView {
            name: self.name@,
            version: self.version@,
            summary: self.summary@,
            dependencies: match self.dependencies {
                Some(v) => Some(v.deep_view()),
                None => None,
            },
        }
    }
}

impl Metadata {
    /// The dependency list, where present, holds each name once.
    pub open spec fn wf(&self) -> bool {
        match self@.dependencies {
            Some(ds) => ds.no_duplicates(),
            None => true,
        }
    }
}

impl Clone for Metadata {
    fn clone(&self) -> (r: Self)
        ensures
            r@ == self@,
            r.wf() == self.wf(),
    {
        Metadata {
            name: self.name.clone(),
            version: self.version.clone(),
            summary: self.summary.clone(),
            dependencies: match &self.dependencies {
                Some(v) => Some(clone_string_vec(v)),
                None => None,
            },
        }
    }
}

/// Copies a vector of strings element by element.
pub fn clone_string_vec(v: &Vec<String>) -> (r: Vec<String>)
    ensures
        r.deep_view() == v.deep_view(),
        r@.len() == v@.len(),
{
    let mut r: Vec<String> = Vec::new();
    let mut i: usize = 0;
    while i < v.len()
        invariant
            0 <= i <= v@.len(),
            r@.len() == i,
            forall|j: int| 0 <= j < i ==> r.deep_view()[j] == v.deep_view()[j],
        decreases v@.len() - i,
    {
        r.push(v[i].clone());
        i = i + 1;
    }
    proof {
        assert(r.deep_view() =~= v.deep_view());
    }
    r
}

/// Characters that end a dependency name inside a dependency specifier.
pub open spec fn is_dep_sep(c: char) -> bool {
    c == '>' || c == '=' || c == ' ' || c == '\n' || c == ';' || c == '!' || c == '<'
}

/// Index of the first separator character in `s`, or `s.len()` if none occurs.
pub open spec fn find_sep_spec(s: Seq<char>) -> int
    decreases s.len(),
{
    if s.len() == 0 {
        0
    } else if is_dep_sep(s[0]) {
        0
    } else {
        1 + find_sep_spec(s.drop_first())
    }
}

proof fn lemma_find_sep_spec_unique(s: Seq<char>, i: int)
    requires
        0 <= i <= s.len(),
        forall|j: int| 0 <= j < i ==> !is_dep_sep(s[j]),
        i < s.len() ==> is_dep_sep(s[i]),
    ensures
        find_sep_spec(s) == i,
    decreases s.len(),
{
    if s.len() > 0 && !is_dep_sep(s[0]) {
        assert(forall|j: int| 0 <= j < i - 1 ==> !is_dep_sep(s.drop_first()[j]));
        lemma_find_sep_spec_unique(s.drop_first(), i - 1);
    }
}

/// The name of a dependency specifier: everything before the first separator
/// character, or the whole string when no separator occurs.
pub open spec fn dep_name_spec(s: Seq<char>) -> Seq<char> {
    s.take(find_sep_spec(s))
}

/// Executable form of the separator predicate.
pub fn is_dep_sep_exec(c: char) -> (r: bool)
    ensures
        r == is_dep_sep(c),
{
    c == '>' || c == '=' || c == ' ' || c == '\n' || c == ';' || c == '!' || c == '<'
}

impl Metadata {
    /// Cuts a dependency specifier down to the bare package name.
    pub fn split_at_separator(dep: String) -> (r: String)
        ensures
            r@ == dep_name_spec(dep@),
    {
        let s = dep.as_str();
        let n = s.unicode_len();
        let mut i: usize = 0;
        while i < n && !is_dep_sep_exec(s.get_char(i))
            invariant
                0 <= i <= n,
                n == s@.len(),
                forall|j: int| 0 <= j < i ==> !is_dep_sep(s@[j]),
            decreases n - i,
        {
            i = i + 1;
        }
        proof {
            lemma_find_sep_spec_unique(s@, i as int);
        }
        s.substring_char(0, i).to_owned()
    }

    /// The approximate name extraction applied to every dependency line.
    pub fn parse_dependency(dep: String) -> (r: String)
        ensures
            r@ == dep_name_spec(dep@),
    {
        Self::split_at_separator(dep)
    }
}

/// Incremental accumulator for a `Metadata` record.
pub struct MetadataBuilder {
    pub name: Option<String>,
    pub version: Option<String>,
    pub summary: Option<String>,
    pub dependencies: Option<Vec<String>>,
}

impl Default for MetadataBuilder {
    fn default() -> (r: Self)
        ensures
            r.name is None,
            r.version is None,
            r.summary is None,
            r.dependencies is None,
    {
        MetadataBuilder { name: None, version: None, summary: None, dependencies: None }
    }
}

impl MetadataBuilder {
    pub fn new() -> (r: Self)
        ensures
            r.name is None,
            r.version is None,
            r.summary is None,
            r.dependencies is None,
    {
        MetadataBuilder { name: None, version: None, summary: None, dependencies: None }
    }

    pub fn name(self, name: String) -> (r: Self)
        ensures
            r.name matches Some(n) && n@ == name@,
            r.version == self.version,
            r.summary == self.summary,
            r.dependencies == self.dependencies,
    {
        MetadataBuilder { name: Some(name), ..self }
    }

    pub fn version(self, version: String) -> (r: Self)
        ensures
            r.version matches Some(v) && v@ == version@,
            r.name == self.name,
            r.summary == self.summary,
            r.dependencies == self.dependencies,
    {
        MetadataBuilder { version: Some(version), ..self }
    }

    pub fn summary(self, summary: String) -> (r: Self)
        ensures
            r.summary matches Some(s) && s@ == summary@,
            r.name == self.name,
            r.version == self.version,
            r.dependencies == self.dependencies,
    {
        MetadataBuilder { summary: Some(summary), ..self }
    }

    pub fn add_dependencies(self, dependencies: Vec<String>) -> (r: Self)
        ensures
            r.dependencies matches Some(d) && d.deep_view() == dependencies.deep_view(),
            r.name == self.name,
            r.version == self.version,
            r.summary == self.summary,
    {
        MetadataBuilder { dependencies: Some(dependencies), ..self }
    }

    /// What an absent field becomes in the finished record.
    pub open spec fn field_or_empty(f: Option<String>) -> Seq<char> {
        match f {
            Some(s) => s@,
            None => Seq::empty(),
        }
    }

    pub fn build(self) -> (r: Metadata)
        ensures
            r@.name == Self::field_or_empty(self.name),
            r@.version == Self::field_or_empty(self.version),
            r@.summary == Self::field_or_empty(self.summary),
            match self.dependencies {
                Some(d) => r@.dependencies matches Some(rd) && rd == d.deep_view(),
                None => r@.dependencies is None,
            },
    {
        Metadata {
            name: self.name.unwrap_or(String::new()),
            version: self.version.unwrap_or(String::new()),
            summary: self.summary.unwrap_or(String::new()),
            dependencies: self.dependencies,
        }
    }
}

/// Index of the first position where `": "` begins in `l`, or `l.len()` if
/// the separator does not occur.
pub open spec fn find_cs_spec(l: Seq<char>) -> int
    decreases l.len(),
{
    if l.len() < 2 {
        l.len() as int
    } else if l[0] == ':' && l[1] == ' ' {
        0
    } else {
        1 + find_cs_spec(l.drop_first())
    }
}

proof fn lemma_find_cs_spec_unique(l: Seq<char>, i: int)
    requires
        0 <= i <= l.len(),
        i < l.len() ==> i + 2 <= l.len() && l[i] == ':' && l[i + 1] == ' ',
        forall|j: int|
            0 <= j < i && j + 2 <= l.len() ==> !(#[trigger] l[j] == ':' && l[j + 1] == ' '),
    ensures
        find_cs_spec(l) == i,
    decreases l.len(),
{
    if l.len() >= 2 && !(l[0] == ':' && l[1] == ' ') {
        assert forall|j: int|
            0 <= j < i - 1 && j + 2 <= l.drop_first().len() implies !(#[trigger] l.drop_first()[j]
            == ':' && l.drop_first()[j + 1] == ' ') by {
            assert(l.drop_first()[j] == l[j + 1]);
            assert(l.drop_first()[j + 1] == l[j + 2]);
        }
        lemma_find_cs_spec_unique(l.drop_first(), i - 1);
    }
}

/// Does line `l` carry a `key: value` pair?
pub open spec fn line_has_kv(l: Seq<char>) -> bool {
    find_cs_spec(l) + 2 <= l.len()
}

/// The key of a field line.
pub open spec fn line_key(l: Seq<char>) -> Seq<char> {
    l.take(find_cs_spec(l))
}

/// The value of a field line.
pub open spec fn line_value(l: Seq<char>) -> Seq<char> {
    l.skip(find_cs_spec(l) + 2)
}

/// Splits a field line at the first `": "`.
pub fn split_key_value(l: &str) -> (r: Option<(&str, &str)>)
    ensures
        r is Some <==> line_has_kv(l@),
        r matches Some(kv) ==> kv.0@ == line_key(l@) && kv.1@ == line_value(l@),
{
    let n = l.unicode_len();
    let mut i: usize = 0;
    while i + 1 < n && !(l.get_char(i) == ':' && l.get_char(i + 1) == ' ')
        invariant
            0 <= i <= n,
            n >= 1 ==> i <= n - 1,
            n == l@.len(),
            forall|j: int|
                0 <= j < i && j + 2 <= n ==> !(#[trigger] l@[j] == ':' && l@[j + 1] == ' '),
        decreases n - i,
    {
        i = i + 1;
    }
    if i + 1 < n {
        proof {
            lemma_find_cs_spec_unique(l@, i as int);
        }
        let key = l.substring_char(0, i);
        let value = l.substring_char(i + 2, n);
        proof {
            assert(key@ =~= line_key(l@));
            assert(value@ =~= line_value(l@));
        }
        Some((key, value))
    } else {
        proof {
            lemma_find_cs_spec_unique(l@, n as int);
        }
        None
    }
}

/// Index of the first blank line, or `ls.len()` if every line has text.
pub open spec fn first_blank_spec(ls: Seq<Seq<char>>) -> int
    decreases ls.len(),
{
    if ls.len() == 0 {
        0
    } else if ls[0].len() == 0 {
        0
    } else {
        1 + first_blank_spec(ls.drop_first())
    }
}

proof fn lemma_first_blank_spec_unique(ls: Seq<Seq<char>>, i: int)
    requires
        0 <= i <= ls.len(),
        i < ls.len() ==> ls[i].len() == 0,
        forall|j: int| 0 <= j < i ==> ls[j].len() != 0,
    ensures
        first_blank_spec(ls) == i,
    decreases ls.len(),
{
    if ls.len() > 0 && ls[0].len() != 0 {
        assert(forall|j: int| 0 <= j < i - 1 ==> ls.drop_first()[j].len() != 0);
        lemma_first_blank_spec_unique(ls.drop_first(), i - 1);
    }
}

/// The header block of a manifest: its lines up to the first blank line.
pub open spec fn header_lines_spec(text: Seq<char>) -> Seq<Seq<char>> {
    let ls = split_lines_spec(text);
    ls.take(first_blank_spec(ls))
}

/// The value of the last header line carrying `key`, or empty.
pub open spec fn last_value_for_key(ls: Seq<Seq<char>>, key: Seq<char>) -> Seq<char>
    decreases ls.len(),
{
    if ls.len() == 0 {
        Seq::empty()
    } else if line_has_kv(ls.last()) && line_key(ls.last()) == key {
        line_value(ls.last())
    } else {
        last_value_for_key(ls.drop_last(), key)
    }
}

/// The distinct dependency names of the `Requires-Dist` header lines, in
/// order of first occurrence.
pub open spec fn dep_values_dedup(ls: Seq<Seq<char>>) -> Seq<Seq<char>>
    decreases ls.len(),
{
    if ls.len() == 0 {
        Seq::empty()
    } else {
        let rest = dep_values_dedup(ls.drop_last());
        if line_has_kv(ls.last()) && line_key(ls.last()) == "Requires-Dist"@ {
            let d = dep_name_spec(line_value(ls.last()));
            if rest.contains(d) {
                rest
            } else {
                rest.push(d)
            }
        } else {
            rest
        }
    }
}

pub proof fn lemma_dep_values_dedup_no_duplicates(ls: Seq<Seq<char>>)
    ensures
        dep_values_dedup(ls).no_duplicates(),
    decreases ls.len(),
{
    if ls.len() > 0 {
        lemma_dep_values_dedup_no_duplicates(ls.drop_last());
    }
}

/// What a manifest text means: its header fields folded into a record.
pub open spec fn metadata_of_text(text: Seq<char>) -> MetadataView {
    let header = header_lines_spec(text);
    MetadataView {
        name: last_value_for_key(header, "Name"@),
        version: last_value_for_key(header, "Version"@),
        summary: last_value_for_key(header, "Summary"@),
        dependencies: if dep_values_dedup(header).len() == 0 {
            None
        } else {
            Some(dep_values_dedup(header))
        },
    }
}

impl Metadata {
    /// Reads a manifest's raw text into a record: header lines up to the
    /// first blank line are scanned for the four recognized keys, later
    /// occurrences win, and dependency names are collected as a set.
    pub fn parse_metadata_text(text: &str) -> (md: Metadata)
        ensures
            md@ == metadata_of_text(text@),
            md.wf(),
    {
        let lines = split_lines(text);
        let ghost ls = split_lines_spec(text@);
        let mut hb: usize = 0;
        while hb < lines.len() && lines[hb].unicode_len() > 0
            invariant
                0 <= hb <= lines@.len(),
                lines@.len() == ls.len(),
                forall|k: int| 0 <= k < ls.len() ==> lines@[k]@ == ls[k],
                forall|j: int| 0 <= j < hb ==> ls[j].len() != 0,
            decreases lines@.len() - hb,
        {
            hb = hb + 1;
        }
        proof {
            lemma_first_blank_spec_unique(ls, hb as int);
        }
        let ghost header = header_lines_spec(text@);
        let mut name_acc: Option<String> = None;
        let mut version_acc: Option<String> = None;
        let mut summary_acc: Option<String> = None;
        let mut deps: Vec<String> = Vec::new();
        let mut i: usize = 0;
        while i < hb
            invariant
                0 <= i <= hb <= lines@.len(),
                lines@.len() == ls.len(),
                forall|k: int| 0 <= k < ls.len() ==> lines@[k]@ == ls[k],
                header == ls.take(hb as int),
                MetadataBuilder::field_or_empty(name_acc) == last_value_for_key(
                    header.take(i as int),
                    "Name"@,
                ),
                MetadataBuilder::field_or_empty(version_acc) == last_value_for_key(
                    header.take(i as int),
                    "Version"@,
                ),
                MetadataBuilder::field_or_empty(summary_acc) == last_value_for_key(
                    header.take(i as int),
                    "Summary"@,
                ),
                deps.deep_view() == dep_values_dedup(header.take(i as int)),
            decreases hb - i,
        {
            proof {
                reveal_strlit("Name");
                reveal_strlit("Version");
                reveal_strlit("Summary");
                reveal_strlit("Requires-Dist");
                assert("Name"@.len() == 4);
                assert("Version"@.len() == 7);
                assert("Summary"@.len() == 7);
                assert("Requires-Dist"@.len() == 13);
                assert("Version"@[0] == 'V' && "Summary"@[0] == 'S');
                assert("Name"@ != "Version"@ && "Name"@ != "Summary"@ && "Name"@
                    != "Requires-Dist"@);
                assert("Version"@ != "Summary"@ && "Version"@ != "Requires-Dist"@);
                assert("Summary"@ != "Requires-Dist"@);
                assert(header.take(i + 1).drop_last() =~= header.take(i as int));
                assert(header.take(i + 1).last() == header[i as int]);
                assert(header[i as int] == lines@[i as int]@);
            }
            let line = lines[i];
            match split_key_value(line) {
                Some((key, value)) => {
                    if crate::strutil::eq_str(key, "Name") {
                        name_acc = Some(value.to_owned());
                    } else if crate::strutil::eq_str(key, "Version") {
                        version_acc = Some(value.to_owned());
                    } else if crate::strutil::eq_str(key, "Summary") {
                        summary_acc = Some(value.to_owned());
                    } else if crate::strutil::eq_str(key, "Requires-Dist") {
                        let dep_name = Self::parse_dependency(value.to_owned());
                        if !vec_contains_str(&deps, dep_name.as_str()) {
                            let prev: Ghost<Seq<Seq<char>>> = Ghost(deps.deep_view());
                            deps.push(dep_name);
                            proof {
                                assert(deps.deep_view() =~= prev@.push(
                                    dep_name_spec(line_value(header[i as int])),
                                ));
                            }
                        }
                    }
                },
                None => {},
            }
            i = i + 1;
        }
        proof {
            assert(header.take(hb as int) =~= header);
            lemma_dep_values_dedup_no_duplicates(header);
        }
        let dependencies = if deps.len() > 0 {
            Some(deps)
        } else {
            None
        };
        let md = Metadata {
            name: name_acc.unwrap_or(String::new()),
            version: version_acc.unwrap_or(String::new()),
            summary: summary_acc.unwrap_or(String::new()),
            dependencies,
        };
        md
    }
}

/// The last `Name` token's value, or empty.
pub open spec fn last_name_spec(toks: Seq<MetadataTokens>) -> Seq<char>
    decreases toks.len(),
{
    if toks.len() == 0 {
        Seq::empty()
    } else {
        match toks.last() {
            MetadataTokens::Name(n) => n@,
            _ => last_name_spec(toks.drop_last()),
        }
    }
}

/// The last `Version` token's value, or empty.
pub open spec fn last_version_spec(toks: Seq<MetadataTokens>) -> Seq<char>
    decreases toks.len(),
{
    if toks.len() == 0 {
        Seq::empty()
    } else {
        match toks.last() {
            MetadataTokens::Version(v) => v@,
            _ => last_version_spec(toks.drop_last()),
        }
    }
}

/// The last `Summary` token's value, or empty.
pub open spec fn last_summary_spec(toks: Seq<MetadataTokens>) -> Seq<char>
    decreases toks.len(),
{
    if toks.len() == 0 {
        Seq::empty()
    } else {
        match toks.last() {
            MetadataTokens::Summary(s) => s@,
            _ => last_summary_spec(toks.drop_last()),
        }
    }
}

/// The distinct dependency names of the `Dependency` tokens, in order of
/// first occurrence.
pub open spec fn dep_names_spec(toks: Seq<MetadataTokens>) -> Seq<Seq<char>>
    decreases toks.len(),
{
    if toks.len() == 0 {
        Seq::empty()
    } else {
        let rest = dep_names_spec(toks.drop_last());
        match toks.last() {
            MetadataTokens::Dependency(d) => {
                if rest.contains(dep_name_spec(d@)) {
                    rest
                } else {
                    rest.push(dep_name_spec(d@))
                }
            },
            _ => rest,
        }
    }
}

pub proof fn lemma_dep_names_no_duplicates(toks: Seq<MetadataTokens>)
    ensures
        dep_names_spec(toks).no_duplicates(),
    decreases toks.len(),
{
    if toks.len() > 0 {
        lemma_dep_names_no_duplicates(toks.drop_last());
    }
}

/// Does `v` hold a string whose characters are `s`?
pub fn vec_contains_str(v: &Vec<String>, s: &str) -> (r: bool)
    ensures
        r == v.deep_view().contains(s@),
{
    let mut i: usize = 0;
    while i < v.len()
        invariant
            0 <= i <= v@.len(),
            forall|j: int| 0 <= j < i ==> v.deep_view()[j] != s@,
        decreases v@.len() - i,
    {
        if crate::strutil::eq_str(v[i].as_str(), s) {
            assert(v.deep_view()[i as int] == s@);
            return true;
        }
        i = i + 1;
    }
    assert(forall|j: int| 0 <= j < v.deep_view().len() ==> v.deep_view()[j] != s@);
    false
}

impl Metadata {
    /// Folds a token stream into a record: the last occurrence wins for the
    /// scalar fields, dependency names are collected as a set, and zero
    /// collected names become an absent dependency list. Never fails.
    pub fn parse_tokens(tokens: Vec<MetadataTokens>) -> (r: Result<
        Metadata,
        crate::error::VenvError,
    >)
        ensures
            r matches Ok(md) && ({
                &&& md@.name == last_name_spec(tokens@)
                &&& md@.version == last_version_spec(tokens@)
                &&& md@.summary == last_summary_spec(tokens@)
                &&& md@.dependencies == (if dep_names_spec(tokens@).len() == 0 {
                    None::<Seq<Seq<char>>>
                } else {
                    Some(dep_names_spec(tokens@))
                })
                &&& md.wf()
            }),
    {
        let mut builder = MetadataBuilder::default();
        let mut dependencies: Vec<String> = Vec::new();
        let n = tokens.len();
        let mut i: usize = 0;
        while i < n
            invariant
                0 <= i <= n,
                n == tokens@.len(),
                MetadataBuilder::field_or_empty(builder.name) == last_name_spec(
                    tokens@.take(i as int),
                ),
                MetadataBuilder::field_or_empty(builder.version) == last_version_spec(
                    tokens@.take(i as int),
                ),
                MetadataBuilder::field_or_empty(builder.summary) == last_summary_spec(
                    tokens@.take(i as int),
                ),
                dependencies.deep_view() == dep_names_spec(tokens@.take(i as int)),
                builder.dependencies is None,
            decreases n - i,
        {
            proof {
                assert(tokens@.take(i + 1).drop_last() =~= tokens@.take(i as int));
                assert(tokens@.take(i + 1).last() == tokens@[i as int]);
            }
            match &tokens[i] {
                MetadataTokens::Name(name) => {
                    builder = builder.name(name.clone());
                },
                MetadataTokens::Version(version) => {
                    builder = builder.version(version.clone());
                },
                MetadataTokens::Summary(summary) => {
                    builder = builder.summary(summary.clone());
                },
                MetadataTokens::Dependency(dep) => {
                    let dep_name = Self::parse_dependency(dep.clone());
                    if !vec_contains_str(&dependencies, dep_name.as_str()) {
                        let prev: Ghost<Seq<Seq<char>>> = Ghost(dependencies.deep_view());
                        dependencies.push(dep_name);
                        proof {
                            assert(dependencies.deep_view() =~= prev@.push(
                                dep_name_spec(dep@),
                            ));
                        }
                    }
                },
            }
            i = i + 1;
        }
        proof {
            assert(tokens@.take(n as int) =~= tokens@);
            lemma_dep_names_no_duplicates(tokens@);
        }
        let md = if dependencies.len() > 0 {
            builder.add_dependencies(dependencies).build()
        } else {
            builder.build()
        };
        Ok(md)
    }
}

} // verus!
