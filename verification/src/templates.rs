//! The HTML partials the interface is assembled from: a catalog from
//! partial name to markup, filled from the built-in partials and then from
//! the partials directory, and the lookup that accepts a partial by its bare
//! name, its file name or its URL path.
use vstd::prelude::*;
use crate::text::{
    chars_of, lemma_texts_push, slice_chars, string_of, texts, trim_start_char, trim_start_matching,
};
use vstd::string::StrSliceExecFns;

verus! {

/// Names of the partials built into the application.
pub open spec fn embedded_names() -> Seq<Seq<char>> {
    seq![
        "albums"@,
        "artists"@,
        "download"@,
        "home"@,
        "library"@,
        "nav"@,
        "player-full"@,
        "playlists"@,
        "search"@,
        "settings"@,
        "sync"@,
    ]
}

fn push_text(out: &mut Vec<String>, lit: &str)
    ensures
        texts(final(out)@) == texts(old(out)@).push(lit@),
{
    let s = string_of(&chars_of(lit));
    proof {
        lemma_texts_push(out@, s);
    }
    out.push(s);
}

/// The names of the partials built into the application, in order.
pub fn embedded_partial_names() -> (r: Vec<String>)
    ensures
        texts(r@) == embedded_names(),
{
    let mut r: Vec<String> = Vec::new();
    push_text(&mut r, "albums");
    push_text(&mut r, "artists");
    push_text(&mut r, "download");
    push_text(&mut r, "home");
    push_text(&mut r, "library");
    push_text(&mut r, "nav");
    push_text(&mut r, "player-full");
    push_text(&mut r, "playlists");
    push_text(&mut r, "search");
    push_text(&mut r, "settings");
    push_text(&mut r, "sync");
    assert(texts(r@) =~= embedded_names());
    r
}

/// The built-in names are distinct.
pub proof fn lemma_embedded_names_distinct()
    ensures
        forall|i: int, j: int|
            0 <= i < j < embedded_names().len() ==> #[trigger] embedded_names()[i]
                != #[trigger] embedded_names()[j],
{
    reveal_strlit("albums");
    reveal_strlit("artists");
    reveal_strlit("download");
    reveal_strlit("home");
    reveal_strlit("library");
    reveal_strlit("nav");
    reveal_strlit("player-full");
    reveal_strlit("playlists");
    reveal_strlit("search");
    reveal_strlit("settings");
    reveal_strlit("sync");
    let n = embedded_names();
    assert(n[0].len() == 6 && n[0][0] == 'a');
    assert(n[1].len() == 7 && n[1][0] == 'a');
    assert(n[2].len() == 8 && n[2][0] == 'd');
    assert(n[3].len() == 4 && n[3][0] == 'h');
    assert(n[4].len() == 7 && n[4][0] == 'l');
    assert(n[5].len() == 3 && n[5][0] == 'n');
    assert(n[6].len() == 11 && n[6][0] == 'p');
    assert(n[7].len() == 9 && n[7][0] == 'p');
    assert(n[8].len() == 6 && n[8][0] == 's');
    assert(n[9].len() == 8 && n[9][0] == 's');
    assert(n[10].len() == 4 && n[10][0] == 's');
}

/// `s` with every leading copy of the non-empty `p` removed
/// (`str::trim_start_matches` with a string pattern).
pub open spec fn strip_prefixes(s: Seq<char>, p: Seq<char>) -> Seq<char>
    decreases s.len(),
{
    if p.len() > 0 && p.is_prefix_of(s) {
        strip_prefixes(s.skip(p.len() as int), p)
    } else {
        s
    }
}

/// `s` with every trailing copy of the non-empty `p` removed
/// (`str::trim_end_matches` with a string pattern).
pub open spec fn strip_suffixes(s: Seq<char>, p: Seq<char>) -> Seq<char>
    decreases s.len(),
{
    if p.len() > 0 && p.len() <= s.len() && s.skip(s.len() - p.len()) == p {
        strip_suffixes(s.take(s.len() - p.len()), p)
    } else {
        s
    }
}

/// The bare name of a partial asked for by name, file name or URL path:
/// leading `/`s, then leading `partials/`, then trailing `.html` removed.
pub open spec fn clean_name(name: Seq<char>) -> Seq<char> {
    strip_suffixes(strip_prefixes(trim_start_char(name, '/'), "partials/"@), ".html"@)
}

fn has_prefix_at(v: &[char], from: usize, lit: &[char]) -> (r: bool)
    requires
        from <= v@.len(),
    ensures
        r == lit@.is_prefix_of(v@.skip(from as int)),
{
    let vl = v.len();
    if vl - from < lit.len() {
        return false;
    }
    assert(from + lit@.len() <= vl);
    let mut i: usize = 0;
    while i < lit.len()
        invariant
            i <= lit@.len(),
            from <= v@.len(),
            vl == v@.len(),
            from + lit@.len() <= vl,
            forall|j: int| 0 <= j < i ==> v@[from + j] == lit@[j],
        decreases lit@.len() - i,
    {
        let k: usize = from + i;
        if v[k] != lit[i] {
            assert(v@.skip(from as int)[i as int] != lit@[i as int]);
            return false;
        }
        i = i + 1;
    }
    assert(lit@ =~= v@.skip(from as int).take(lit@.len() as int));
    true
}

fn strip_prefix_copies(v: &[char], p: &[char]) -> (r: Vec<char>)
    requires
        p@.len() > 0,
    ensures
        r@ == strip_prefixes(v@, p@),
{
    let mut i: usize = 0;
    assert(v@.skip(0) =~= v@);
    while i < v.len() && has_prefix_at(v, i, p)
        invariant
            i <= v@.len(),
            p@.len() > 0,
            strip_prefixes(v@, p@) == strip_prefixes(v@.skip(i as int), p@),
        decreases v@.len() - i,
    {
        assert(v@.skip(i as int).skip(p@.len() as int) =~= v@.skip(i + p@.len()));
        i = i + p.len();
    }
    if i >= v.len() {
        assert(v@.skip(i as int) =~= Seq::<char>::empty());
        assert(!p@.is_prefix_of(Seq::<char>::empty()));
    }
    assert(v@.skip(i as int) =~= v@.subrange(i as int, v@.len() as int));
    slice_chars(v, i, v.len())
}

fn strip_suffix_copies(v: &[char], p: &[char]) -> (r: Vec<char>)
    requires
        p@.len() > 0,
    ensures
        r@ == strip_suffixes(v@, p@),
{
    let mut e: usize = v.len();
    assert(v@.take(e as int) =~= v@);
    while e >= p.len() && has_prefix_at(v, e - p.len(), p)
        invariant
            e <= v@.len(),
            p@.len() > 0,
            strip_suffixes(v@, p@) == strip_suffixes(v@.take(e as int), p@),
        decreases e,
    {
        let ghost s = v@.take(e as int);
        assert(v@.skip(e - p@.len()).take(p@.len() as int) =~= s.skip(s.len() - p@.len()));
        assert(s.take(s.len() - p@.len()) =~= v@.take(e - p@.len()));
        e = e - p.len();
    }
    let ghost s = v@.take(e as int);
    proof {
        if e >= p@.len() {
            assert(v@.skip(e - p@.len()).take(p@.len() as int) =~= s.skip(s.len() - p@.len()));
            if s.skip(s.len() - p@.len()) == p@ {
                assert(p@.is_prefix_of(v@.skip(e - p@.len())));
            }
        }
    }
    assert(strip_suffixes(s, p@) == s);
    assert(v@.subrange(0, e as int) =~= s);
    slice_chars(v, 0, e)
}

/// The bare name of a partial asked for by name, file name or URL path.
pub fn clean_partial_name(name: &str) -> (r: String)
    ensures
        r@ == clean_name(name@),
{
    proof {
        reveal_strlit("partials/");
        reveal_strlit(".html");
    }
    let v = chars_of(name);
    let a = trim_start_matching(&v, '/');
    let b = strip_prefix_copies(&a, &chars_of("partials/"));
    let c = strip_suffix_copies(&b, &chars_of(".html"));
    string_of(&c)
}

/// The markup stored under `name`: the first entry of that name.
pub open spec fn lookup(entries: Seq<(Seq<char>, Seq<char>)>, name: Seq<char>) -> Option<
    Seq<char>,
>
    decreases entries.len(),
{
    if entries.len() == 0 {
        None
    } else if entries[0].0 == name {
        Some(entries[0].1)
    } else {
        lookup(entries.drop_first(), name)
    }
}

/// Partial names and their markup.
pub struct PartialCatalog {
    entries: Vec<(String, String)>,
}

impl PartialCatalog {
    /// The entries, as names and markup.
    pub closed spec fn view(&self) -> Seq<(Seq<char>, Seq<char>)> {
        self.entries@.map_values(|e: (String, String)| (e.0@, e.1@))
    }

    /// The names of the entries, in order.
    pub open spec fn names(&self) -> Seq<Seq<char>> {
        self.view().map_values(|e: (Seq<char>, Seq<char>)| e.0)
    }

    /// No name occurs twice.
    pub open spec fn wf(&self) -> bool {
        forall|i: int, j: int|
            0 <= i < j < self.names().len() ==> #[trigger] self.names()[i] != #[trigger] self.names()[j]
    }

    /// The markup stored under `name`.
    pub open spec fn get_spec(&self, name: Seq<char>) -> Option<Seq<char>> {
        lookup(self.view(), name)
    }

    /// Whether every built-in partial has markup in the catalog.
    pub open spec fn holds_builtins(&self) -> bool {
        forall|i: int|
            0 <= i < embedded_names().len() ==> #[trigger] self.get_spec(embedded_names()[i]) is Some
    }

    /// An empty catalog.
    pub fn new() -> (r: Self)
        ensures
            r.wf(),
            r.view().len() == 0,
    {
        let r = PartialCatalog { entries: Vec::new() };
        assert(r.view() =~= Seq::<(Seq<char>, Seq<char>)>::empty());
        r
    }

    fn position(&self, name: &[char]) -> (r: Option<usize>)
        ensures
            match r {
                Some(i) => i < self.view().len() && self.view()[i as int].0 == name@ && forall|
                    j: int,
                | 0 <= j < i ==> #[trigger] self.view()[j].0 != name@,
                None => forall|j: int|
                    0 <= j < self.view().len() ==> #[trigger] self.view()[j].0 != name@,
            },
    {
        let mut i: usize = 0;
        while i < self.entries.len()
            invariant
                i <= self.entries@.len(),
                self.view().len() == self.entries@.len(),
                forall|j: int| 0 <= j < i ==> #[trigger] self.view()[j].0 != name@,
            decreases self.entries@.len() - i,
        {
            let v = chars_of(self.entries[i].0.as_str());
            assert(self.view()[i as int].0 == self.entries@[i as int].0@);
            if same_chars(&v, name) {
                return Some(i);
            }
            i = i + 1;
        }
        None
    }

    /// The markup stored under `name`, if any.
    pub fn get(&self, name: &str) -> (r: Option<String>)
        ensures
            match r {
                Some(s) => self.get_spec(name@) == Some(s@),
                None => self.get_spec(name@) is None,
            },
    {
        let key = chars_of(name);
        let found = self.position(&key);
        proof {
            lemma_lookup_first(self.view(), name@);
        }
        match found {
            Some(i) => {
                let v = chars_of(self.entries[i].1.as_str());
                let s = string_of(&v);
                assert(self.view()[i as int].1 == self.entries@[i as int].1@);
                Some(s)
            },
            None => None,
        }
    }

    /// Store `markup` under `name`, replacing what was stored there.
    pub fn insert(&mut self, name: &str, markup: &str)
        requires
            old(self).wf(),
        ensures
            final(self).wf(),
            forall|k: Seq<char>|
                #[trigger] final(self).get_spec(k) == if k == name@ {
                    Some(markup@)
                } else {
                    old(self).get_spec(k)
                },
            forall|k: Seq<char>|
                #[trigger] final(self).names().contains(k) <==> (old(self).names().contains(k)
                    || k == name@),
            old(self).holds_builtins() ==> final(self).holds_builtins(),
    {
        let key = chars_of(name);
        let found = self.position(&key);
        let entry = (string_of(&key), string_of(&chars_of(markup)));
        let ghost old_view = self.view();
        let ghost old_names = self.names();
        match found {
            Some(i) => {
                self.entries.set(i, entry);
                proof {
                    assert(self.view() =~= old_view.update(i as int, (name@, markup@)));
                    assert forall|k: Seq<char>| #[trigger]
                        self.get_spec(k) == if k == name@ {
                            Some(markup@)
                        } else {
                            lookup(old_view, k)
                        } by {
                        lemma_lookup_update(old_view, i as int, name@, markup@, k);
                    }
                    assert(self.names() =~= old_names);
                    assert(old_names[i as int] == name@);
                    assert(old_names.contains(name@));
                }
            },
            None => {
                self.entries.push(entry);
                proof {
                    assert(self.view() =~= old_view.push((name@, markup@)));
                    assert forall|k: Seq<char>| #[trigger]
                        self.get_spec(k) == if k == name@ {
                            Some(markup@)
                        } else {
                            lookup(old_view, k)
                        } by {
                        lemma_lookup_push(old_view, name@, markup@, k);
                    }
                    assert(self.names() =~= old_names.push(name@));
                    assert forall|j: int| 0 <= j < old_names.len() implies #[trigger] old_names[j]
                        != name@ by {
                        assert(old_names[j] == old_view[j].0);
                    }
                    assert forall|k: Seq<char>| #[trigger]
                        self.names().contains(k) <==> (old_names.contains(k) || k == name@) by {
                        if self.names().contains(k) {
                            let j = choose|j: int|
                                0 <= j < self.names().len() && self.names()[j] == k;
                            if j < old_names.len() {
                                assert(old_names[j] == k);
                            }
                        }
                        if old_names.contains(k) {
                            let j = choose|j: int| 0 <= j < old_names.len() && old_names[j] == k;
                            assert(self.names()[j] == k);
                        }
                        if k == name@ {
                            assert(self.names()[old_names.len() as int] == k);
                        }
                    }
                }
            },
        }
        proof {
            if old(self).holds_builtins() {
                assert forall|i: int| 0 <= i < embedded_names().len() implies #[trigger] self.get_spec(
                    embedded_names()[i],
                ) is Some by {
                    if embedded_names()[i] != name@ {
                        assert(self.get_spec(embedded_names()[i]) == old(self).get_spec(
                            embedded_names()[i],
                        ));
                    }
                }
            }
        }
    }

    /// The names of all stored partials.
    pub fn all_names(&self) -> (r: Vec<String>)
        ensures
            texts(r@) == self.names(),
    {
        let mut r: Vec<String> = Vec::new();
        let mut i: usize = 0;
        while i < self.entries.len()
            invariant
                i <= self.entries@.len(),
                self.names().len() == self.entries@.len(),
                texts(r@) == self.names().take(i as int),
            decreases self.entries@.len() - i,
        {
            let s = string_of(&chars_of(self.entries[i].0.as_str()));
            assert(self.names()[i as int] == self.entries@[i as int].0@);
            proof {
                lemma_texts_push(r@, s);
            }
            r.push(s);
            assert(texts(r@) =~= self.names().take(i + 1));
            i = i + 1;
        }
        assert(self.names().take(self.names().len() as int) =~= self.names());
        r
    }
}

fn same_chars(a: &[char], b: &[char]) -> (r: bool)
    ensures
        r == (a@ == b@),
{
    if a.len() != b.len() {
        return false;
    }
    let mut i: usize = 0;
    while i < a.len()
        invariant
            a@.len() == b@.len(),
            i <= a@.len(),
            forall|j: int| 0 <= j < i ==> a@[j] == b@[j],
        decreases a@.len() - i,
    {
        if a[i] != b[i] {
            return false;
        }
        i = i + 1;
    }
    assert(a@ =~= b@);
    true
}

proof fn lemma_lookup_first(entries: Seq<(Seq<char>, Seq<char>)>, name: Seq<char>)
    ensures
        forall|i: int|
            0 <= i < entries.len() && entries[i].0 == name && (forall|j: int|
                0 <= j < i ==> #[trigger] entries[j].0 != name) ==> lookup(entries, name) == Some(
                entries[i].1,
            ),
        (forall|j: int| 0 <= j < entries.len() ==> #[trigger] entries[j].0 != name) ==> lookup(
            entries,
            name,
        ) is None,
    decreases entries.len(),
{
    if entries.len() > 0 {
        lemma_lookup_first(entries.drop_first(), name);
        assert forall|i: int|
            0 <= i < entries.len() && entries[i].0 == name && (forall|j: int|
                0 <= j < i ==> #[trigger] entries[j].0 != name) implies lookup(entries, name)
            == Some(entries[i].1) by {
            if i > 0 {
                assert(entries[0].0 != name);
                assert forall|j: int| 0 <= j < i - 1 implies #[trigger] entries.drop_first()[j].0
                    != name by {
                    assert(entries.drop_first()[j] == entries[j + 1]);
                }
                assert(entries.drop_first()[i - 1] == entries[i]);
            }
        }
        if forall|j: int| 0 <= j < entries.len() ==> #[trigger] entries[j].0 != name {
            assert(entries[0].0 != name);
            assert forall|j: int| 0 <= j < entries.drop_first().len() implies #[trigger]
                entries.drop_first()[j].0 != name by {
                assert(entries.drop_first()[j] == entries[j + 1]);
            }
        }
    }
}

proof fn lemma_lookup_update(
    entries: Seq<(Seq<char>, Seq<char>)>,
    i: int,
    name: Seq<char>,
    markup: Seq<char>,
    k: Seq<char>,
)
    requires
        0 <= i < entries.len(),
        entries[i].0 == name,
        forall|j: int| 0 <= j < i ==> #[trigger] entries[j].0 != name,
    ensures
        lookup(entries.update(i, (name, markup)), k) == if k == name {
            Some(markup)
        } else {
            lookup(entries, k)
        },
    decreases entries.len(),
{
    let u = entries.update(i, (name, markup));
    assert(u[0] == if i == 0 {
        (name, markup)
    } else {
        entries[0]
    });
    if i == 0 {
        assert(u.drop_first() =~= entries.drop_first());
    } else {
        assert(u.drop_first() =~= entries.drop_first().update(i - 1, (name, markup)));
        assert(entries[0].0 != name);
        assert forall|j: int| 0 <= j < i - 1 implies #[trigger] entries.drop_first()[j].0
            != name by {
            assert(entries.drop_first()[j] == entries[j + 1]);
        }
        assert(entries.drop_first()[i - 1] == entries[i]);
        lemma_lookup_update(entries.drop_first(), i - 1, name, markup, k);
    }
}

proof fn lemma_lookup_push(
    entries: Seq<(Seq<char>, Seq<char>)>,
    name: Seq<char>,
    markup: Seq<char>,
    k: Seq<char>,
)
    requires
        forall|j: int| 0 <= j < entries.len() ==> #[trigger] entries[j].0 != name,
    ensures
        lookup(entries.push((name, markup)), k) == if k == name {
            Some(markup)
        } else {
            lookup(entries, k)
        },
    decreases entries.len(),
{
    let p = entries.push((name, markup));
    assert(lookup(p, k) == if p[0].0 == k {
        Some(p[0].1)
    } else {
        lookup(p.drop_first(), k)
    });
    if entries.len() > 0 {
        assert(p[0] == entries[0]);
        assert(entries[0].0 != name);
        assert(p.drop_first() =~= entries.drop_first().push((name, markup)));
        assert forall|j: int| 0 <= j < entries.drop_first().len() implies #[trigger]
            entries.drop_first()[j].0 != name by {
            assert(entries.drop_first()[j] == entries[j + 1]);
        }
        lemma_lookup_push(entries.drop_first(), name, markup, k);
    } else {
        assert(p[0] == (name, markup));
        assert(p.drop_first() =~= Seq::<(Seq<char>, Seq<char>)>::empty());
    }
}

/// The partial asked for by `name`: looked up under its bare name first,
/// then under `name` exactly as given.
pub open spec fn partial_for(catalog: PartialCatalog, name: Seq<char>) -> Option<Seq<char>> {
    match catalog.get_spec(clean_name(name)) {
        Some(m) => Some(m),
        None => catalog.get_spec(name),
    }
}

/// The markup of the partial asked for by name, file name or URL path.
pub fn get_partial(catalog: &PartialCatalog, name: &str) -> (r: Option<String>)
    ensures
        match r {
            Some(s) => partial_for(*catalog, name@) == Some(s@),
            None => partial_for(*catalog, name@) is None,
        },
{
    let clean = clean_partial_name(name);
    match catalog.get(clean.as_str()) {
        Some(m) => Some(m),
        None => catalog.get(name),
    }
}

/// The names of all partials in the catalog.
pub fn all_partial_names(catalog: &PartialCatalog) -> (r: Vec<String>)
    ensures
        texts(r@) == catalog.names(),
{
    catalog.all_names()
}

/// A catalog holding the built-in partials, `markup[i]` under the `i`-th
/// built-in name.
pub fn embedded_catalog(markup: &Vec<String>) -> (r: PartialCatalog)
    requires
        markup@.len() == embedded_names().len(),
    ensures
        r.wf(),
        r.holds_builtins(),
        forall|i: int|
            0 <= i < embedded_names().len() ==> #[trigger] r.get_spec(embedded_names()[i])
                == Some(markup@[i]@),
{
    let names = embedded_partial_names();
    let mut cat = PartialCatalog::new();
    let mut i: usize = 0;
    proof {
        lemma_embedded_names_distinct();
    }
    while i < names.len()
        invariant
            i <= names@.len(),
            texts(names@) == embedded_names(),
            markup@.len() == names@.len(),
            cat.wf(),
            forall|j: int|
                0 <= j < i ==> #[trigger] cat.get_spec(embedded_names()[j]) == Some(markup@[j]@),
            forall|a: int, b: int|
                0 <= a < b < embedded_names().len() ==> #[trigger] embedded_names()[a]
                    != #[trigger] embedded_names()[b],
        decreases names@.len() - i,
    {
        assert(texts(names@)[i as int] == names@[i as int]@);
        cat.insert(names[i].as_str(), markup[i].as_str());
        assert forall|j: int| 0 <= j < i + 1 implies #[trigger] cat.get_spec(embedded_names()[j])
            == Some(markup@[j]@) by {
            if j < i {
                assert(embedded_names()[j] != embedded_names()[i as int]);
            }
        }
        i = i + 1;
    }
    assert forall|j: int| 0 <= j < embedded_names().len() implies #[trigger] cat.get_spec(
        embedded_names()[j],
    ) is Some by {
        assert(cat.get_spec(embedded_names()[j]) == Some(markup@[j]@));
    }
    cat
}


/// A partial name that the lookup leaves as it is: it starts with neither
/// `/` nor `pa`, and has no `.` where a `.html` suffix would start.
pub open spec fn plain_partial_name(n: Seq<char>) -> bool {
    &&& n.len() >= 2
    &&& n[0] != '/'
    &&& !(n[0] == 'p' && n[1] == 'a')
    &&& (n.len() < 5 || n[n.len() - 5] != '.')
}

proof fn lemma_plain_with_suffix(n: Seq<char>)
    requires
        plain_partial_name(n),
    ensures
        clean_name(n) == n,
        clean_name(n + ".html"@) == n,
{
    reveal_strlit(".html");
    reveal_strlit("partials/");
    let p = "partials/"@;
    let h = ".html"@;
    let s = n + h;
    assert(s[0] == n[0] && s[1] == n[1]);
    assert(!p.is_prefix_of(s)) by {
        if p.is_prefix_of(s) {
            assert(s.take(9)[0] == s[0]);
            assert(s.take(9)[1] == s[1]);
        }
    }
    assert(!p.is_prefix_of(n)) by {
        if p.is_prefix_of(n) {
            assert(n.take(9)[0] == n[0]);
            assert(n.take(9)[1] == n[1]);
        }
    }
    assert(trim_start_char(s, '/') == s);
    assert(trim_start_char(n, '/') == n);
    assert(strip_prefixes(s, p) == s);
    assert(strip_prefixes(n, p) == n);
    assert(s.skip(s.len() - 5) =~= h);
    assert(s.take(s.len() - 5) =~= n);
    assert(strip_suffixes(n, h) == n) by {
        if n.len() >= 5 && n.skip(n.len() - 5) == h {
            assert(n.skip(n.len() - 5)[0] == n[n.len() - 5]);
        }
    }
    assert(strip_suffixes(s, h) == strip_suffixes(n, h));
}

proof fn lemma_plain_url_path(n: Seq<char>)
    requires
        plain_partial_name(n),
    ensures
        clean_name("/partials/"@ + n + ".html"@) == n,
{
    reveal_strlit("/partials/");
    reveal_strlit("partials/");
    lemma_plain_with_suffix(n);
    let p = "partials/"@;
    let s = n + ".html"@;
    let u = "/partials/"@ + n + ".html"@;
    let t = p + s;
    assert(u.drop_first() =~= t);
    assert(t[0] == 'p');
    assert(trim_start_char(t, '/') == t);
    assert(trim_start_char(u, '/') == t);
    assert(p.is_prefix_of(t)) by {
        assert(t.take(9) =~= p);
    }
    assert(t.skip(9) =~= s);
    assert(strip_prefixes(t, p) == strip_prefixes(s, p));
}

proof fn lemma_lookup_found(entries: Seq<(Seq<char>, Seq<char>)>, name: Seq<char>)
    requires
        lookup(entries, name) is Some,
    ensures
        exists|j: int| 0 <= j < entries.len() && #[trigger] entries[j].0 == name,
    decreases entries.len(),
{
    if entries[0].0 != name {
        lemma_lookup_found(entries.drop_first(), name);
        let j = choose|j: int| 0 <= j < entries.drop_first().len() && #[trigger] entries.drop_first()[j].0 == name;
        assert(entries[j + 1] == entries.drop_first()[j]);
    }
}

/// Every built-in name is a plain partial name.
pub proof fn lemma_embedded_names_plain()
    ensures
        forall|i: int|
            0 <= i < embedded_names().len() ==> plain_partial_name(#[trigger] embedded_names()[i]),
{
    reveal_strlit("albums");
    reveal_strlit("artists");
    reveal_strlit("download");
    reveal_strlit("home");
    reveal_strlit("library");
    reveal_strlit("nav");
    reveal_strlit("player-full");
    reveal_strlit("playlists");
    reveal_strlit("search");
    reveal_strlit("settings");
    reveal_strlit("sync");
    let n = embedded_names();
    assert(plain_partial_name(n[0]));
    assert(plain_partial_name(n[1]));
    assert(plain_partial_name(n[2]));
    assert(plain_partial_name(n[3]));
    assert(plain_partial_name(n[4]));
    assert(plain_partial_name(n[5]));
    assert(plain_partial_name(n[6]));
    assert(plain_partial_name(n[7]));
    assert(plain_partial_name(n[8]));
    assert(plain_partial_name(n[9]));
    assert(plain_partial_name(n[10]));
}

/// In a catalog that holds every built-in partial (`embedded_catalog`
/// builds one, and `insert` keeps a catalog one), each built-in partial is
/// served under its bare name, its file name and its URL path alike, and is
/// listed among the catalog's names.
pub proof fn law_builtin_partials_resolve(c: PartialCatalog)
    requires
        c.holds_builtins(),
    ensures
        forall|i: int|
            0 <= i < embedded_names().len() ==> {
                let n = #[trigger] embedded_names()[i];
                &&& partial_for(c, n) is Some
                &&& partial_for(c, n) == c.get_spec(n)
                &&& partial_for(c, n + ".html"@) == c.get_spec(n)
                &&& partial_for(c, "/partials/"@ + n + ".html"@) == c.get_spec(n)
                &&& c.names().contains(n)
            },
{
    lemma_embedded_names_plain();
    assert forall|i: int| 0 <= i < embedded_names().len() implies {
        let n = #[trigger] embedded_names()[i];
        &&& partial_for(c, n) is Some
        &&& partial_for(c, n) == c.get_spec(n)
        &&& partial_for(c, n + ".html"@) == c.get_spec(n)
        &&& partial_for(c, "/partials/"@ + n + ".html"@) == c.get_spec(n)
        &&& c.names().contains(n)
    } by {
        let n = embedded_names()[i];
        assert(c.get_spec(n) is Some);
        lemma_plain_with_suffix(n);
        lemma_plain_url_path(n);
        lemma_lookup_found(c.view(), n);
        let j = choose|j: int| 0 <= j < c.view().len() && #[trigger] c.view()[j].0 == n;
        assert(c.names()[j] == n);
    }
}

} // verus!
