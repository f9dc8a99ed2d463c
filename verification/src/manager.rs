//! The environment manager's state and rules: which directories are language
//! categories, which category is selected, which remote resources can still be
//! downloaded, and what choosing a version or refreshing the catalogue does.
use vstd::prelude::*;

use crate::listing::{DirEntryInfo, EntryKind};
use crate::remote::{RemoteResource, ResourceCatalog};
use crate::text::{concat2, concat3, contains_string, contains_text, owned, same_text, trim, trimmed};

verus! {

/// The address of the resource catalogue where `RESOURCE_URL` does not name one.
pub const DEFAULT_RESOURCE_URL: &'static str =
    "https://raw.githubusercontent.com/Crazy-ccc/env_manager/master/resource/resource.json";

/// The directory, under the base directory, that archives are downloaded to.
pub const DOWNLOAD_DIR_NAME: &'static str = "download";

// ---------------------------------------------------------------- languages

/// The languages that are managed, each with the environment variable that
/// points at its selected version.
pub open spec fn lang_table() -> Seq<(Seq<char>, Seq<char>)> {
    seq![("java"@, "JAVA_HOME"@), ("scala"@, "SCALA_HOME"@), ("go"@, "GO_HOME"@)]
}

/// The variable that `table` gives for `name`, taking its first entry for it.
pub open spec fn table_lookup(table: Seq<(Seq<char>, Seq<char>)>, name: Seq<char>) -> Option<
    Seq<char>,
>
    decreases table.len(),
{
    if table.len() == 0 {
        None
    } else if table[0].0 == name {
        Some(table[0].1)
    } else {
        table_lookup(table.drop_first(), name)
    }
}

/// The environment variable of a managed language.
pub open spec fn spec_env_var_for(name: Seq<char>) -> Option<Seq<char>> {
    table_lookup(lang_table(), name)
}

/// The managed languages and their variables.
pub fn supported_lang() -> (r: Vec<(String, String)>)
    ensures
        r@.len() == lang_table().len(),
        forall|i: int|
            0 <= i < r@.len() ==> (#[trigger] r@[i]).0@ == lang_table()[i].0 && r@[i].1@
                == lang_table()[i].1,
{
    let mut m: Vec<(String, String)> = Vec::new();
    m.push((owned("java"), owned("JAVA_HOME")));
    m.push((owned("scala"), owned("SCALA_HOME")));
    m.push((owned("go"), owned("GO_HOME")));
    m
}

/// The environment variable of the language `name`, if it is managed.
pub fn env_var_for(name: &str) -> (r: Option<String>)
    ensures
        match r {
            Some(v) => spec_env_var_for(name@) == Some(v@),
            None => spec_env_var_for(name@) is None,
        },
{
    let table = supported_lang();
    let ghost t = lang_table();
    let mut i: usize = 0;
    assert(t.skip(0) =~= t);
    while i < table.len()
        invariant
            i <= table.len(),
            table@.len() == t.len(),
            forall|k: int|
                0 <= k < table@.len() ==> (#[trigger] table@[k]).0@ == t[k].0 && table@[k].1@
                    == t[k].1,
            t == lang_table(),
            table_lookup(t, name@) == table_lookup(t.skip(i as int), name@),
        decreases table.len() - i,
    {
        assert(t.skip(i as int)[0] == t[i as int]);
        if same_text(table[i].0.as_str(), name) {
            return Some(table[i].1.clone());
        }
        assert(t.skip(i as int).drop_first() =~= t.skip(i + 1));
        i = i + 1;
    }
    None
}

// ---------------------------------------------------------------- categories

/// A language directory under the base directory: the language's name, its
/// environment variable, and the directory's file name as listed.
#[derive(Clone, Debug)]
pub struct LangCategory {
    pub name: String,
    pub env_name: String,
    pub dir_name: String,
}

impl View for LangCategory {
    type V = (Seq<char>, Seq<char>, Seq<char>);

    open spec fn view(&self) -> (Seq<char>, Seq<char>, Seq<char>) {
        (self.name@, self.env_name@, self.dir_name@)
    }
}

/// The category that a directory entry makes, if any: an entry that is not
/// known to be a plain file, whose trimmed name is a managed language.
pub open spec fn category_of(e: DirEntryInfo) -> Option<(Seq<char>, Seq<char>, Seq<char>)> {
    if e.kind == EntryKind::File || e.kind == EntryKind::Unknown {
        None
    } else {
        match spec_env_var_for(trimmed(e.name@)) {
            Some(env) => Some((trimmed(e.name@), env, e.name@)),
            None => None,
        }
    }
}

/// The categories that a listing makes, in listing order.
pub open spec fn categories_of(es: Seq<DirEntryInfo>) -> Seq<(Seq<char>, Seq<char>, Seq<char>)>
    decreases es.len(),
{
    if es.len() == 0 {
        Seq::empty()
    } else {
        match category_of(es.last()) {
            Some(c) => categories_of(es.drop_last()).push(c),
            None => categories_of(es.drop_last()),
        }
    }
}

/// Each category of a listing comes from an entry that is not known to be a
/// plain file, is named by that entry's trimmed name, carries the variable of
/// that managed language, and remembers the entry's name as listed; and each
/// such entry makes a category.
pub proof fn law_categories_of(es: Seq<DirEntryInfo>)
    ensures
        forall|i: int|
            0 <= i < categories_of(es).len() ==> exists|k: int|
                0 <= k < es.len() && es[k].kind != EntryKind::File && es[k].kind
                    != EntryKind::Unknown && (#[trigger] categories_of(es)[i]).0 == trimmed(
                    es[k].name@,
                ) && spec_env_var_for(trimmed(es[k].name@)) == Some(categories_of(es)[i].1)
                    && categories_of(es)[i].2 == es[k].name@,
        forall|k: int|
            0 <= k < es.len() && (#[trigger] es[k]).kind != EntryKind::File && es[k].kind
                != EntryKind::Unknown && spec_env_var_for(trimmed(es[k].name@)) is Some
                ==> categories_of(es).contains(
                (
                    trimmed(es[k].name@),
                    spec_env_var_for(trimmed(es[k].name@)).unwrap(),
                    es[k].name@,
                ),
            ),
    decreases es.len(),
{
    if es.len() > 0 {
        let prev = es.drop_last();
        law_categories_of(prev);
        let c = categories_of(es);
        let pc = categories_of(prev);
        assert forall|i: int| 0 <= i < c.len() implies exists|k: int|
            0 <= k < es.len() && es[k].kind != EntryKind::File && es[k].kind != EntryKind::Unknown
                && (#[trigger] c[i]).0 == trimmed(es[k].name@) && spec_env_var_for(
                trimmed(es[k].name@),
            ) == Some(c[i].1) && c[i].2 == es[k].name@ by {
            if i < pc.len() {
                assert(c[i] == pc[i]);
                let k = choose|k: int|
                    0 <= k < prev.len() && prev[k].kind != EntryKind::File && prev[k].kind
                        != EntryKind::Unknown && (#[trigger] pc[i]).0 == trimmed(prev[k].name@)
                        && spec_env_var_for(trimmed(prev[k].name@)) == Some(pc[i].1) && pc[i].2
                        == prev[k].name@;
                assert(es[k] == prev[k]);
            } else {
                assert(es[es.len() - 1] == es.last());
            }
        }
        assert forall|k: int|
            0 <= k < es.len() && (#[trigger] es[k]).kind != EntryKind::File && es[k].kind
                != EntryKind::Unknown && spec_env_var_for(trimmed(es[k].name@)) is Some implies c.contains(
            (
                trimmed(es[k].name@),
                spec_env_var_for(trimmed(es[k].name@)).unwrap(),
                es[k].name@,
            ),
        ) by {
            let t = (
                trimmed(es[k].name@),
                spec_env_var_for(trimmed(es[k].name@)).unwrap(),
                es[k].name@,
            );
            if k < es.len() - 1 {
                assert(prev[k] == es[k]);
                let i = choose|i: int| 0 <= i < pc.len() && pc[i] == t;
                assert(c[i] == pc[i]);
            } else {
                assert(c[c.len() - 1] == t);
            }
        }
    }
}

/// The managed languages are exactly java, scala and go, with `JAVA_HOME`,
/// `SCALA_HOME` and `GO_HOME`; no other name has a variable.
pub proof fn law_env_var_table(name: Seq<char>)
    ensures
        name == "java"@ ==> spec_env_var_for(name) == Some("JAVA_HOME"@),
        name == "scala"@ ==> spec_env_var_for(name) == Some("SCALA_HOME"@),
        name == "go"@ ==> spec_env_var_for(name) == Some("GO_HOME"@),
        name != "java"@ && name != "scala"@ && name != "go"@ ==> spec_env_var_for(name) is None,
{
    reveal_strlit("java");
    reveal_strlit("scala");
    reveal_strlit("go");
    let t = lang_table();
    assert(t.drop_first() =~= seq![("scala"@, "SCALA_HOME"@), ("go"@, "GO_HOME"@)]);
    assert(t.drop_first().drop_first() =~= seq![("go"@, "GO_HOME"@)]);
    assert(t.drop_first().drop_first().drop_first() =~= Seq::<(Seq<char>, Seq<char>)>::empty());
    assert("java"@.len() == 4 && "scala"@.len() == 5 && "go"@.len() == 2);
    reveal_with_fuel(table_lookup, 4);
}

/// The views of a list of categories.
pub open spec fn category_views(cs: Seq<LangCategory>) -> Seq<(Seq<char>, Seq<char>, Seq<char>)> {
    cs.map_values(|c: LangCategory| c@)
}

/// The language categories among the entries of the base directory.
pub fn load_categories(entries: &Vec<DirEntryInfo>) -> (r: Vec<LangCategory>)
    ensures
        category_views(r@) == categories_of(entries@),
{
    let mut cats: Vec<LangCategory> = Vec::new();
    let mut i: usize = 0;
    while i < entries.len()
        invariant
            i <= entries.len(),
            category_views(cats@) == categories_of(entries@.take(i as int)),
        decreases entries.len() - i,
    {
        let ghost before = cats@;
        assert(entries@.take(i + 1).drop_last() =~= entries@.take(i as int));
        assert(entries@.take(i + 1).last() == entries@[i as int]);
        let e = &entries[i];
        if e.kind != EntryKind::File && e.kind != EntryKind::Unknown {
            let name = trim(e.name.as_str());
            match env_var_for(name) {
                Some(env_name) => {
                    cats.push(
                        LangCategory { name: owned(name), env_name, dir_name: e.name.clone() },
                    );
                    assert(category_views(cats@) =~= category_views(before).push(cats@.last()@));
                },
                None => {},
            }
        }
        i = i + 1;
    }
    assert(entries@.take(entries.len() as int) =~= entries@);
    cats
}

/// The base directory that `ENV_PATH` gives: its value where it is set and
/// names a directory (`env_path_is_dir`); otherwise none, and the working
/// directory is used.
pub fn usable_env_path<P>(env_path: Option<P>, env_path_is_dir: bool) -> (r: Option<P>)
    ensures
        r == (if env_path is Some && env_path_is_dir {
            env_path
        } else {
            None
        }),
{
    match env_path {
        Some(p) if env_path_is_dir => Some(p),
        _ => None,
    }
}

/// The catalogue's address: `RESOURCE_URL` where it is set, else the default.
pub fn resource_url_or_default(var: Option<String>) -> (r: String)
    ensures
        r@ == match var {
            Some(v) => v@,
            None => DEFAULT_RESOURCE_URL@,
        },
{
    match var {
        Some(v) => v,
        None => owned(DEFAULT_RESOURCE_URL),
    }
}

// ---------------------------------------------------------------- the manager

/// What the environment variable of a language is to be set to: the category's
/// directory (under the base directory) joined with the version.
pub struct EnvAssignment {
    pub env_name: String,
    pub dir_name: String,
    pub version: String,
}

/// The manager's state.
pub struct EnvManager {
    pub categories: Vec<LangCategory>,
    pub selected: usize,
    pub selected_version: String,
    pub resource_url: String,
    pub resources: ResourceCatalog,
    pub show_settings: bool,
    pub error_msg: Option<String>,
}

/// The key of the selected category: its name, or the empty text where no
/// category is selected.
pub open spec fn spec_current_key(m: EnvManager) -> Seq<char> {
    if m.selected < m.categories@.len() {
        m.categories@[m.selected as int].name@
    } else {
        Seq::empty()
    }
}

/// The resources that the catalogue offers for the selected category.
pub open spec fn spec_current_resources(m: EnvManager) -> Seq<RemoteResource> {
    if m.resources@.contains_key(spec_current_key(m)) {
        m.resources@[spec_current_key(m)]
    } else {
        Seq::empty()
    }
}

/// The resources among `rs` whose names are not among `installed`, in order.
pub open spec fn not_installed(rs: Seq<RemoteResource>, installed: Seq<String>) -> Seq<
    RemoteResource,
>
    decreases rs.len(),
{
    if rs.len() == 0 {
        Seq::empty()
    } else if contains_text(installed, rs.last().name@) {
        not_installed(rs.drop_last(), installed)
    } else {
        not_installed(rs.drop_last(), installed).push(rs.last())
    }
}

/// The downloadable resources are exactly the offered ones that are not
/// installed: each of them is offered and not installed, and each offered
/// resource that is not installed is among them.
pub proof fn law_downloadable_are_offered_and_missing(
    rs: Seq<RemoteResource>,
    installed: Seq<String>,
)
    ensures
        forall|i: int|
            0 <= i < not_installed(rs, installed).len() ==> rs.contains(
                #[trigger] not_installed(rs, installed)[i],
            ) && !contains_text(installed, not_installed(rs, installed)[i].name@),
        forall|j: int|
            0 <= j < rs.len() && !contains_text(installed, #[trigger] rs[j].name@) ==> not_installed(
                rs,
                installed,
            ).contains(rs[j]),
    decreases rs.len(),
{
    if rs.len() > 0 {
        let prev = rs.drop_last();
        law_downloadable_are_offered_and_missing(prev, installed);
        let r = not_installed(rs, installed);
        let pr = not_installed(prev, installed);
        assert forall|i: int| 0 <= i < r.len() implies rs.contains(#[trigger] r[i]) && !contains_text(
            installed,
            r[i].name@,
        ) by {
            if i < pr.len() {
                assert(r[i] == pr[i]);
                let k = choose|k: int| 0 <= k < prev.len() && prev[k] == pr[i];
                assert(rs[k] == prev[k]);
            } else {
                assert(r[i] == rs.last());
                assert(rs[rs.len() - 1] == rs.last());
            }
        }
        assert forall|j: int|
            0 <= j < rs.len() && !contains_text(installed, #[trigger] rs[j].name@) implies r.contains(
            rs[j],
        ) by {
            if j < rs.len() - 1 {
                assert(prev[j] == rs[j]);
                let k = choose|k: int| 0 <= k < pr.len() && pr[k] == prev[j];
                assert(r[k] == pr[k]);
            } else {
                assert(r[r.len() - 1] == rs[j]);
            }
        }
    }
}

/// The position of the last set flag, or -1 where none is set.
pub open spec fn last_clicked(flags: Seq<bool>) -> int
    decreases flags.len(),
{
    if flags.len() == 0 {
        -1
    } else if flags.last() {
        flags.len() - 1
    } else {
        last_clicked(flags.drop_last())
    }
}

/// A resource is left out of the downloadable list exactly when some
/// installed version has exactly its name: each listed resource is offered and
/// no installed name equals its name, and each offered resource whose name
/// equals no installed name is listed.
pub proof fn law_downloadable_excludes_exactly_installed_names(
    rs: Seq<RemoteResource>,
    installed: Seq<String>,
)
    ensures
        forall|i: int|
            0 <= i < not_installed(rs, installed).len() ==> rs.contains(
                #[trigger] not_installed(rs, installed)[i],
            ) && !(exists|k: int|
                0 <= k < installed.len() && installed[k]@ == not_installed(
                    rs,
                    installed,
                )[i].name@),
        forall|j: int|
            0 <= j < rs.len() && !(exists|k: int|
                0 <= k < installed.len() && installed[k]@ == (#[trigger] rs[j]).name@)
                ==> not_installed(rs, installed).contains(rs[j]),
{
    law_downloadable_are_offered_and_missing(rs, installed);
    let r = not_installed(rs, installed);
    assert forall|i: int| 0 <= i < r.len() implies rs.contains(#[trigger] r[i]) && !(exists|k: int|
        0 <= k < installed.len() && installed[k]@ == r[i].name@) by {
        assert(!contains_text(installed, r[i].name@));
        if exists|k: int| 0 <= k < installed.len() && installed[k]@ == r[i].name@ {
            let k = choose|k: int| 0 <= k < installed.len() && installed[k]@ == r[i].name@;
            assert(installed[k]@ == r[i].name@);
        }
    }
    assert forall|j: int|
        0 <= j < rs.len() && !(exists|k: int|
            0 <= k < installed.len() && installed[k]@ == (#[trigger] rs[j]).name@) implies r.contains(
        rs[j],
    ) by {
        if contains_text(installed, rs[j].name@) {
            let k = choose|k: int| 0 <= k < installed.len() && #[trigger] installed[k]@ == rs[j].name@;
            assert(installed[k]@ == rs[j].name@);
        }
    }
}

impl EnvManager {
    /// A manager over the given categories and catalogue, with the first
    /// category selected, no version chosen, the downloads window closed and no
    /// message.
    pub fn new(categories: Vec<LangCategory>, resource_url: String, resources: ResourceCatalog) -> (r:
        EnvManager)
        ensures
            r.categories@ == categories@,
            r.selected == 0,
            r.selected_version@ == Seq::<char>::empty(),
            r.resource_url@ == resource_url@,
            r.resources@ == resources@,
            !r.show_settings,
            r.error_msg is None,
    {
        EnvManager {
            categories,
            selected: 0,
            selected_version: String::new(),
            resource_url,
            resources,
            show_settings: false,
            error_msg: None,
        }
    }

    /// The selected category, if the selection names one.
    pub fn current_category(&self) -> (r: Option<&LangCategory>)
        ensures
            r is Some <==> self.selected < self.categories@.len(),
            r is Some ==> *r.unwrap() == self.categories@[self.selected as int],
    {
        if self.selected < self.categories.len() {
            Some(&self.categories[self.selected])
        } else {
            None
        }
    }

    /// The name of the selected category, or the empty text.
    pub fn current_key(&self) -> (r: &str)
        ensures
            r@ == spec_current_key(*self),
    {
        match self.current_category() {
            Some(c) => c.name.as_str(),
            None => {
                proof {
                    reveal_strlit("");
                }
                ""
            },
        }
    }

    /// The resources offered for the selected category.
    pub fn current_resources(&self) -> (r: &[RemoteResource])
        ensures
            r@ == spec_current_resources(*self),
    {
        let key = self.current_key();
        match self.resources.get(key) {
            Some(v) => v.as_slice(),
            None => {
                let empty: &[RemoteResource] = &[];
                assert(empty@ =~= Seq::<RemoteResource>::empty());
                empty
            },
        }
    }

    /// The resources offered for the selected category whose names are not
    /// among the installed versions `installed`.
    pub fn downloadable_resources(&self, installed: &Vec<String>) -> (r: Vec<RemoteResource>)
        ensures
            r@ == not_installed(spec_current_resources(*self), installed@),
    {
        let offered = self.current_resources();
        let mut out: Vec<RemoteResource> = Vec::new();
        let mut i: usize = 0;
        while i < offered.len()
            invariant
                i <= offered.len(),
                out@ == not_installed(offered@.take(i as int), installed@),
            decreases offered.len() - i,
        {
            assert(offered@.take(i + 1).drop_last() =~= offered@.take(i as int));
            assert(offered@.take(i + 1).last() == offered@[i as int]);
            if !contains_string(installed, offered[i].name.as_str()) {
                out.push(offered[i].duplicate());
            }
            i = i + 1;
        }
        assert(offered@.take(offered.len() as int) =~= offered@);
        out
    }

    /// Takes a freshly fetched catalogue. An empty one is refused with a
    /// message and the old catalogue is kept; another replaces the old one and
    /// clears the message.
    pub fn refresh_resources(&mut self, fetched: ResourceCatalog)
        ensures
            fetched@.dom() =~= Set::<Seq<char>>::empty() ==> final(self).resources@ == old(
                self,
            ).resources@ && final(self).error_msg is Some && final(self).error_msg.unwrap()@
                == "从远程加载资源列表失败"@,
            !(fetched@.dom() =~= Set::<Seq<char>>::empty()) ==> final(self).resources@ == fetched@
                && final(self).error_msg is None,
            final(self).categories@ == old(self).categories@,
            final(self).selected == old(self).selected,
            final(self).selected_version == old(self).selected_version,
            final(self).resource_url == old(self).resource_url,
            final(self).show_settings == old(self).show_settings,
    {
        if fetched.is_empty() {
            self.error_msg = Some(owned("从远程加载资源列表失败"));
        } else {
            self.resources = fetched;
            self.error_msg = None;
        }
    }

    /// Selects the category at `index`.
    pub fn select_category(&mut self, index: usize)
        ensures
            final(self).selected == index,
            final(self).categories@ == old(self).categories@,
            final(self).selected_version == old(self).selected_version,
            final(self).resource_url == old(self).resource_url,
            final(self).resources@ == old(self).resources@,
            final(self).show_settings == old(self).show_settings,
            final(self).error_msg == old(self).error_msg,
    {
        self.selected = index;
    }

    /// Takes the clicks on the category tabs, one flag per tab in order: the
    /// last clicked tab becomes the selected one, as each click in turn selects
    /// its tab; without a click the selection stays.
    pub fn select_clicked_tab(&mut self, clicked: &Vec<bool>)
        ensures
            last_clicked(clicked@) >= 0 ==> final(self).selected == last_clicked(clicked@),
            last_clicked(clicked@) < 0 ==> final(self).selected == old(self).selected,
            final(self).categories@ == old(self).categories@,
            final(self).selected_version == old(self).selected_version,
            final(self).resource_url == old(self).resource_url,
            final(self).resources@ == old(self).resources@,
            final(self).show_settings == old(self).show_settings,
            final(self).error_msg == old(self).error_msg,
    {
        let mut i: usize = 0;
        let ghost start = self.selected;
        while i < clicked.len()
            invariant
                i <= clicked.len(),
                last_clicked(clicked@.take(i as int)) >= 0 ==> self.selected == last_clicked(
                    clicked@.take(i as int),
                ),
                last_clicked(clicked@.take(i as int)) < 0 ==> self.selected == start,
                self.categories@ == old(self).categories@,
                self.selected_version == old(self).selected_version,
                self.resource_url == old(self).resource_url,
                self.resources@ == old(self).resources@,
                self.show_settings == old(self).show_settings,
                self.error_msg == old(self).error_msg,
            decreases clicked.len() - i,
        {
            assert(clicked@.take(i + 1).drop_last() =~= clicked@.take(i as int));
            if clicked[i] {
                self.select_category(i);
            }
            i = i + 1;
        }
        assert(clicked@.take(clicked.len() as int) =~= clicked@);
    }

    /// Chooses `version` of the selected category: records it, reports the
    /// choice in the message, and returns what the category's variable is to be
    /// set to. Without a selected category nothing changes.
    pub fn select_version(&mut self, version: &str) -> (r: Option<EnvAssignment>)
        ensures
            old(self).selected >= old(self).categories@.len() ==> r is None && final(self).selected_version
                == old(self).selected_version && final(self).error_msg == old(self).error_msg,
            old(self).selected < old(self).categories@.len() ==> {
                let c = old(self).categories@[old(self).selected as int];
                &&& r is Some
                &&& r.unwrap().env_name@ == c.env_name@
                &&& r.unwrap().dir_name@ == c.dir_name@
                &&& r.unwrap().version@ == version@
                &&& final(self).selected_version@ == version@
                &&& final(self).error_msg is Some
                &&& final(self).error_msg.unwrap()@ == "已将 "@ + c.env_name@ + " 设为 "@ + version@
            },
            final(self).categories@ == old(self).categories@,
            final(self).selected == old(self).selected,
            final(self).resource_url == old(self).resource_url,
            final(self).resources@ == old(self).resources@,
            final(self).show_settings == old(self).show_settings,
    {
        if self.selected < self.categories.len() {
            let env_name = self.categories[self.selected].env_name.clone();
            let dir_name = self.categories[self.selected].dir_name.clone();
            let head = concat3("已将 ", env_name.as_str(), " 设为 ");
            let msg = concat2(head.as_str(), version);
            self.selected_version = owned(version);
            self.error_msg = Some(msg);
            Some(EnvAssignment { env_name, dir_name, version: owned(version) })
        } else {
            None
        }
    }

    /// Opens the downloads window where it is closed, and closes it where open.
    pub fn toggle_settings(&mut self)
        ensures
            final(self).show_settings == !old(self).show_settings,
            final(self).categories@ == old(self).categories@,
            final(self).selected == old(self).selected,
            final(self).selected_version == old(self).selected_version,
            final(self).resource_url == old(self).resource_url,
            final(self).resources@ == old(self).resources@,
            final(self).error_msg == old(self).error_msg,
    {
        self.show_settings = !self.show_settings;
    }
}

/// Whether the variable's value `env_value`, trimmed, is the path of a version
/// (`version_path`, the category's directory joined with the version, as text).
pub fn check_env_var(env_value: &Option<String>, version_path: &str) -> (r: bool)
    ensures
        r == (env_value is Some && trimmed(env_value.unwrap()@) == version_path@),
{
    match env_value {
        Some(v) => same_text(version_path, trim(v.as_str())),
        None => false,
    }
}

/// The label of an installed version: marked where it is the current one.
pub fn version_label(version: &str, is_current: bool) -> (r: String)
    ensures
        r@ == (if is_current {
            version@ + " (当前)"@
        } else {
            version@
        }),
{
    if is_current {
        concat2(version, " (当前)")
    } else {
        owned(version)
    }
}

/// The heading above the installed versions of a language.
pub fn installed_heading(env_name: &str) -> (r: String)
    ensures
        r@ == "已安装的 "@ + env_name@ + " 版本："@,
{
    concat3("已安装的 ", env_name, " 版本：")
}

} // verus!
