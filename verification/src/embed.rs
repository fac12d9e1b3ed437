//! Link-preview metadata scraped from a page: its title, description,
//! OpenGraph data, feeds, icons and links, and the choice of the icon that
//! best fits a wanted size.
//!
//! Property maps are association lists over their keys, with the keys kept
//! unique; insertion replaces the value of an existing key in place.

use vstd::prelude::*;

use crate::text::char_index;
use crate::text::find_char;
use crate::text::pair_views;
use crate::text::str_eq;

verus! {

broadcast use vstd::string::group_string_axioms;

/// How far fetching a page's metadata has come.
#[derive(Debug, Clone, Copy, PartialEq, Eq, Structural, Default)]
pub enum EmbedState {
    #[default]
    Normal,
    Loading,
    Failed,
}

/// The kinds of page icons, in the order they are discovered.
#[derive(Debug, Clone, Copy, PartialEq, Eq, Structural)]
pub enum IconKind {
    Favicon,
    TouchIcon,
    MaskIcon,
    DefaultFavicon,
}

/// One icon a page offers.
#[derive(Debug, Clone)]
pub struct Icon {
    pub kind: IconKind,
    pub url: String,
    /// The raw `sizes` attribute, such as `32x32`.
    pub size: Option<String>,
    pub type_: Option<String>,
}

/// Whether a link came from the page head or its body.
#[derive(Debug, Clone, Copy, PartialEq, Eq, Structural)]
pub enum LinkKind {
    Link,
    Anchor,
}

/// One link found on a page.
#[derive(Debug, Clone)]
pub struct Link {
    pub kind: LinkKind,
    pub rel: Option<String>,
    pub href: Option<String>,
    pub text: Option<String>,
    pub additional: Option<Vec<(String, String)>>,
}

/// One structured OpenGraph object, such as an image with its properties.
#[derive(Debug, Clone)]
pub struct OpenGraphObj {
    pub url: Option<String>,
    pub properties: Vec<(String, String)>,
}

/// The OpenGraph data of a page.
#[derive(Debug, Clone)]
pub struct OpenGraph {
    pub type_: Option<String>,
    pub properties: Vec<(String, String)>,
    pub objects: Vec<(String, Vec<OpenGraphObj>)>,
}

/// Everything scraped about one page.
#[derive(Debug)]
pub struct Info {
    pub state: EmbedState,
    pub base_url: String,
    pub url: String,
    pub site: String,
    pub lang: Option<String>,
    pub title: Option<String>,
    pub description: Option<String>,
    pub opengraph: OpenGraph,
    pub meta: Vec<(String, String)>,
    pub feeds: Vec<(String, String)>,
    pub icons: Vec<Icon>,
    pub cached_icon: Option<Icon>,
    pub links: Vec<Link>,
}

/// Spec-level shape of one OpenGraph object.
#[verifier::ext_equal]
pub ghost struct OpenGraphObjV {
    pub url: Option<Seq<char>>,
    pub properties: Seq<(Seq<char>, Seq<char>)>,
}

/// Spec-level shape of a page's OpenGraph data.
#[verifier::ext_equal]
pub ghost struct OpenGraphV {
    pub type_: Option<Seq<char>>,
    pub properties: Seq<(Seq<char>, Seq<char>)>,
    pub objects: Seq<(Seq<char>, Seq<OpenGraphObjV>)>,
}

impl View for OpenGraphObj {
    type V = OpenGraphObjV;

    open spec fn view(&self) -> OpenGraphObjV {
        OpenGraphObjV {
            url: match self.url {
                Some(u) => Some(u@),
                None => None,
            },
            properties: pair_views(self.properties@),
        }
    }
}

impl DeepView for OpenGraphObj {
    type V = OpenGraphObjV;

    open spec fn deep_view(&self) -> OpenGraphObjV {
        self.view()
    }
}

/// The views of a sequence of named OpenGraph object lists.
pub open spec fn object_views(s: Seq<(String, Vec<OpenGraphObj>)>) -> Seq<
    (Seq<char>, Seq<OpenGraphObjV>),
> {
    s.map_values(|p: (String, Vec<OpenGraphObj>)| (p.0@, p.1.deep_view()))
}

impl View for OpenGraph {
    type V = OpenGraphV;

    open spec fn view(&self) -> OpenGraphV {
        OpenGraphV {
            type_: match self.type_ {
                Some(t) => Some(t@),
                None => None,
            },
            properties: pair_views(self.properties@),
            objects: object_views(self.objects@),
        }
    }
}

/// Index of the first entry with key `k`, or -1.
pub open spec fn assoc_index<T>(s: Seq<(Seq<char>, T)>, k: Seq<char>) -> int
    decreases s.len(),
{
    if s.len() == 0 {
        -1
    } else if s[0].0 == k {
        0
    } else {
        let r = assoc_index(s.drop_first(), k);
        if r < 0 {
            -1
        } else {
            r + 1
        }
    }
}

/// `s` with the value of `k` set to `v`: in place for an existing key, at
/// the end for a new one.
pub open spec fn assoc_set<T>(s: Seq<(Seq<char>, T)>, k: Seq<char>, v: T) -> Seq<(Seq<char>, T)> {
    let i = assoc_index(s, k);
    if i < 0 {
        s.push((k, v))
    } else {
        s.update(i, (k, v))
    }
}

/// The keys of `s` are pairwise distinct.
pub open spec fn keys_unique<T>(s: Seq<(Seq<char>, T)>) -> bool {
    forall|i: int, j: int| 0 <= i < j < s.len() ==> s[i].0 != s[j].0
}

/// `assoc_index` really is the first entry with the key.
pub proof fn lemma_assoc_index<T>(s: Seq<(Seq<char>, T)>, k: Seq<char>)
    ensures
        assoc_index(s, k) == -1 ==> forall|j: int| 0 <= j < s.len() ==> s[j].0 != k,
        assoc_index(s, k) >= 0 ==> 0 <= assoc_index(s, k) < s.len() && s[assoc_index(s, k)].0 == k
            && forall|j: int| 0 <= j < assoc_index(s, k) ==> s[j].0 != k,
    decreases s.len(),
{
    if s.len() > 0 && s[0].0 != k {
        let t = s.drop_first();
        lemma_assoc_index(t, k);
        assert(forall|j: int| 0 <= j < t.len() ==> #[trigger] t[j] == s[j + 1]);
        if assoc_index(s, k) == -1 {
            assert forall|j: int| 0 <= j < s.len() implies s[j].0 != k by {
                if j > 0 {
                    assert(t[j - 1].0 != k);
                    assert(s[j] == t[j - 1]);
                }
            }
        } else {
            let ci = assoc_index(s, k);
            assert(s[ci] == t[ci - 1]);
            assert forall|j: int| 0 <= j < ci implies s[j].0 != k by {
                if j > 0 {
                    assert(t[j - 1].0 != k);
                    assert(s[j] == t[j - 1]);
                }
            }
        }
    }
}

/// Setting a key keeps the keys pairwise distinct.
pub proof fn lemma_assoc_set_unique<T>(s: Seq<(Seq<char>, T)>, k: Seq<char>, v: T)
    requires
        keys_unique(s),
    ensures
        keys_unique(assoc_set(s, k, v)),
{
    lemma_assoc_index(s, k);
    let i = assoc_index(s, k);
    if i < 0 {
        let t = s.push((k, v));
        assert forall|a: int, b: int| 0 <= a < b < t.len() implies t[a].0 != t[b].0 by {
            if b == s.len() {
                assert(s[a].0 != k);
            }
        }
    } else {
        let t = s.update(i, (k, v));
        assert forall|a: int, b: int| 0 <= a < b < t.len() implies t[a].0 != t[b].0 by {
            assert(s[a].0 == t[a].0 || (a == i && s[i].0 == k));
            assert(s[b].0 == t[b].0 || (b == i && s[i].0 == k));
        }
    }
}

/// Index of the entry of `v` with key `key`, if any.
fn find_key(v: &Vec<(String, String)>, key: &str) -> (r: Option<usize>)
    ensures
        r matches Some(j) ==> j as int == assoc_index(pair_views(v@), key@) && j < v@.len(),
        r is None ==> assoc_index(pair_views(v@), key@) == -1,
{
    let ghost pv = pair_views(v@);
    proof {
        lemma_assoc_index(pv, key@);
    }
    let n = v.len();
    let mut i: usize = 0;
    while i < n
        invariant
            i <= n,
            n == v@.len(),
            pv == pair_views(v@),
            forall|j: int| 0 <= j < i ==> pv[j].0 != key@,
        decreases n - i,
    {
        if str_eq(v[i].0.as_str(), key) {
            proof {
                lemma_assoc_index(pv, key@);
                assert(pv[i as int].0 == key@);
                if assoc_index(pv, key@) != i as int {
                    assert(pv[assoc_index(pv, key@)].0 == key@);
                }
            }
            return Some(i);
        }
        i = i + 1;
    }
    proof {
        lemma_assoc_index(pv, key@);
        if assoc_index(pv, key@) >= 0 {
            assert(pv[assoc_index(pv, key@)].0 == key@);
        }
    }
    None
}

/// Set `key` to `value` in the association list `v`, replacing in place or
/// appending.
pub fn insert_pair(v: &mut Vec<(String, String)>, key: &str, value: &str)
    requires
        keys_unique(pair_views(old(v)@)),
    ensures
        pair_views(final(v)@) == assoc_set(pair_views(old(v)@), key@, value@),
        keys_unique(pair_views(final(v)@)),
{
    let ghost pv = pair_views(old(v)@);
    proof {
        lemma_assoc_set_unique(pv, key@, value@);
    }
    match find_key(v, key) {
        Some(j) => {
            v.remove(j);
            v.insert(j, (key.to_owned(), value.to_owned()));
            proof {
                assert(pair_views(v@) =~= assoc_set(pv, key@, value@));
            }
        },
        None => {
            v.push((key.to_owned(), value.to_owned()));
            proof {
                assert(pair_views(v@) =~= assoc_set(pv, key@, value@));
            }
        },
    }
}

/// The OpenGraph data with one more `key` object holding just `value` as
/// its address.
pub open spec fn og_with_object(og: OpenGraphV, key: Seq<char>, value: Seq<char>) -> OpenGraphV {
    let obj = OpenGraphObjV { url: Some(value), properties: Seq::empty() };
    let i = assoc_index(og.objects, key);
    let objects = if i < 0 {
        og.objects.push((key, seq![obj]))
    } else {
        og.objects.update(i, (key, og.objects[i].1.push(obj)))
    };
    OpenGraphV { type_: og.type_, properties: og.properties, objects }
}

/// The latest `scope` object with `prop` set: its address when `prop` is
/// `url`, one of its properties otherwise; a first object is begun when the
/// scope has none yet.
pub open spec fn og_with_scoped_prop(
    og: OpenGraphV,
    scope: Seq<char>,
    prop: Seq<char>,
    value: Seq<char>,
) -> OpenGraphV {
    let i = assoc_index(og.objects, scope);
    let list = if i < 0 {
        Seq::<OpenGraphObjV>::empty()
    } else {
        og.objects[i].1
    };
    let grown = if list.len() == 0 {
        list.push(OpenGraphObjV { url: None, properties: Seq::empty() })
    } else {
        list
    };
    let last = grown[grown.len() - 1];
    let updated = if prop == "url"@ {
        OpenGraphObjV { url: Some(value), properties: last.properties }
    } else {
        OpenGraphObjV { url: last.url, properties: assoc_set(last.properties, prop, value) }
    };
    let list2 = grown.update(grown.len() - 1, updated);
    let objects = if i < 0 {
        og.objects.push((scope, list2))
    } else {
        og.objects.update(i, (scope, list2))
    };
    OpenGraphV { type_: og.type_, properties: og.properties, objects }
}

/// What one OpenGraph property does to the data: `type` sets the type,
/// `image`/`video`/`audio` add an object of that kind, a `scope:prop` name
/// updates the latest object of its scope, and anything else is a plain
/// property.
pub open spec fn og_processed(og: OpenGraphV, name: Seq<char>, value: Seq<char>) -> OpenGraphV {
    if name == "type"@ {
        OpenGraphV { type_: Some(value), properties: og.properties, objects: og.objects }
    } else if name == "image"@ || name == "video"@ || name == "audio"@ {
        og_with_object(og, name, value)
    } else {
        let colon = char_index(name, ':');
        if colon >= 0 {
            og_with_scoped_prop(og, name.take(colon), name.skip(colon + 1), value)
        } else {
            OpenGraphV {
                type_: og.type_,
                properties: assoc_set(og.properties, name, value),
                objects: og.objects,
            }
        }
    }
}

/// The keys on every level of the OpenGraph data are distinct.
pub open spec fn og_wf(og: OpenGraphV) -> bool {
    &&& keys_unique(og.properties)
    &&& keys_unique(og.objects)
    &&& forall|i: int, j: int|
        0 <= i < og.objects.len() && 0 <= j < og.objects[i].1.len() ==> keys_unique(
            #[trigger] og.objects[i].1[j].properties,
        )
}

impl OpenGraph {
    /// OpenGraph data with nothing in it.
    pub fn new() -> (r: Self)
        ensures
            r@.type_ is None,
            r@.properties == Seq::<(Seq<char>, Seq<char>)>::empty(),
            r@.objects == Seq::<(Seq<char>, Seq<OpenGraphObjV>)>::empty(),
            og_wf(r@),
    {
        let r = OpenGraph { type_: None, properties: Vec::new(), objects: Vec::new() };
        proof {
            assert(r@.properties =~= Seq::<(Seq<char>, Seq<char>)>::empty());
            assert(r@.objects =~= Seq::<(Seq<char>, Seq<OpenGraphObjV>)>::empty());
        }
        r
    }

    /// Record one OpenGraph property, as [`og_processed`] says.
    pub fn process_prop(&mut self, name: &str, value: &str)
        requires
            og_wf(old(self)@),
        ensures
            final(self)@ == og_processed(old(self)@, name@, value@),
            og_wf(final(self)@),
    {
        let ghost og = old(self)@;
        if str_eq(name, "type") {
            self.type_ = Some(value.to_owned());
        } else if str_eq(name, "image") || str_eq(name, "video") || str_eq(name, "audio") {
            self.push_object(name, value);
        } else {
            match find_char(name, ':') {
                Some(colon) => {
                    let n = name.unicode_len();
                    let scope = name.substring_char(0, colon);
                    let prop = name.substring_char(colon + 1, n);
                    proof {
                        assert(scope@ =~= name@.take(colon as int));
                        assert(prop@ =~= name@.skip(colon as int + 1));
                    }
                    self.set_scoped_prop(scope, prop, value);
                },
                None => {
                    insert_pair(&mut self.properties, name, value);
                },
            }
        }
    }

    /// Add one `key` object holding `value` as its address.
    fn push_object(&mut self, key: &str, value: &str)
        requires
            og_wf(old(self)@),
        ensures
            final(self)@ == og_with_object(old(self)@, key@, value@),
            og_wf(final(self)@),
    {
        let ghost og = old(self)@;
        let ghost objv = OpenGraphObjV { url: Some(value@), properties: Seq::empty() };
        let obj = OpenGraphObj { url: Some(value.to_owned()), properties: Vec::new() };
        proof {
            assert(obj@ =~~= objv);
            lemma_assoc_index(og.objects, key@);
        }
        match find_obj_key(&self.objects, key) {
            Some(j) => {
                let mut entry = self.objects.remove(j);
                entry.1.push(obj);
                self.objects.insert(j, entry);
                proof {
                    assert(self.objects@.len() == og.objects.len());
                    assert(object_views(self.objects@) =~~= og.objects.update(
                        j as int,
                        (key@, og.objects[j as int].1.push(objv)),
                    ));
                }
            },
            None => {
                let mut list: Vec<OpenGraphObj> = Vec::new();
                list.push(obj);
                self.objects.push((key.to_owned(), list));
                proof {
                    assert(list.deep_view() =~= seq![objv]);
                    assert(object_views(self.objects@) =~~= og.objects.push((key@, seq![objv])));
                    assert forall|a: int, b: int|
                        0 <= a < b < object_views(self.objects@).len() implies object_views(
                        self.objects@,
                    )[a].0 != object_views(self.objects@)[b].0 by {
                        if b == og.objects.len() {
                            assert(og.objects[a].0 != key@);
                        }
                    }
                }
            },
        }
    }

    /// Update the latest `scope` object: its address for `url`, one of its
    /// properties otherwise.
    fn set_scoped_prop(&mut self, scope: &str, prop: &str, value: &str)
        requires
            og_wf(old(self)@),
        ensures
            final(self)@ == og_with_scoped_prop(old(self)@, scope@, prop@, value@),
            og_wf(final(self)@),
    {
        let ghost og = old(self)@;
        proof {
            lemma_assoc_index(og.objects, scope@);
        }
        match find_obj_key(&self.objects, scope) {
            Some(j) => {
                let mut entry = self.objects.remove(j);
                update_last_object(&mut entry.1, prop, value);
                self.objects.insert(j, entry);
                proof {
                    let list = og.objects[j as int].1;
                    let grown = if list.len() == 0 {
                        list.push(OpenGraphObjV { url: None, properties: Seq::empty() })
                    } else {
                        list
                    };
                    let last = grown[grown.len() - 1];
                    let updated = if prop@ == "url"@ {
                        OpenGraphObjV { url: Some(value@), properties: last.properties }
                    } else {
                        OpenGraphObjV {
                            url: last.url,
                            properties: assoc_set(last.properties, prop@, value@),
                        }
                    };
                    assert(object_views(self.objects@) =~~= og.objects.update(
                        j as int,
                        (scope@, grown.update(grown.len() - 1, updated)),
                    ));
                    lemma_assoc_set_unique(last.properties, prop@, value@);
                }
            },
            None => {
                let mut list: Vec<OpenGraphObj> = Vec::new();
                update_last_object(&mut list, prop, value);
                self.objects.push((scope.to_owned(), list));
                proof {
                    let grown = seq![OpenGraphObjV { url: None, properties: Seq::empty() }];
                    let last = grown[0];
                    let updated = if prop@ == "url"@ {
                        OpenGraphObjV { url: Some(value@), properties: last.properties }
                    } else {
                        OpenGraphObjV {
                            url: last.url,
                            properties: assoc_set(last.properties, prop@, value@),
                        }
                    };
                    assert(Seq::<OpenGraphObjV>::empty().push(
                        OpenGraphObjV { url: None, properties: Seq::empty() },
                    ) =~= grown);
                    assert(list.deep_view() =~~= grown.update(0, updated));
                    assert(object_views(self.objects@) =~~= og.objects.push(
                        (scope@, grown.update(0, updated)),
                    ));
                    lemma_assoc_set_unique(last.properties, prop@, value@);
                    assert forall|a: int, b: int|
                        0 <= a < b < object_views(self.objects@).len() implies object_views(
                        self.objects@,
                    )[a].0 != object_views(self.objects@)[b].0 by {
                        if b == og.objects.len() {
                            assert(og.objects[a].0 != scope@);
                        }
                    }
                }
            },
        }
    }
}

/// Index of the object list of `v` with key `key`, if any.
fn find_obj_key(v: &Vec<(String, Vec<OpenGraphObj>)>, key: &str) -> (r: Option<usize>)
    ensures
        r matches Some(j) ==> j as int == assoc_index(object_views(v@), key@) && j < v@.len(),
        r is None ==> assoc_index(object_views(v@), key@) == -1,
{
    let ghost pv = object_views(v@);
    proof {
        lemma_assoc_index(pv, key@);
    }
    let n = v.len();
    let mut i: usize = 0;
    while i < n
        invariant
            i <= n,
            n == v@.len(),
            pv == object_views(v@),
            forall|j: int| 0 <= j < i ==> pv[j].0 != key@,
        decreases n - i,
    {
        if str_eq(v[i].0.as_str(), key) {
            proof {
                lemma_assoc_index(pv, key@);
                assert(pv[i as int].0 == key@);
                if assoc_index(pv, key@) != i as int {
                    assert(pv[assoc_index(pv, key@)].0 == key@);
                }
            }
            return Some(i);
        }
        i = i + 1;
    }
    proof {
        lemma_assoc_index(pv, key@);
        if assoc_index(pv, key@) >= 0 {
            assert(pv[assoc_index(pv, key@)].0 == key@);
        }
    }
    None
}

/// Update the last object of `list` (beginning a first one when the list is
/// empty): its address for `url`, one of its properties otherwise.
fn update_last_object(list: &mut Vec<OpenGraphObj>, prop: &str, value: &str)
    requires
        forall|j: int| 0 <= j < old(list)@.len() ==> keys_unique(
            #[trigger] old(list).deep_view()[j].properties,
        ),
    ensures
        ({
            let grown = if old(list)@.len() == 0 {
                old(list).deep_view().push(OpenGraphObjV { url: None, properties: Seq::empty() })
            } else {
                old(list).deep_view()
            };
            let last = grown[grown.len() - 1];
            let updated = if prop@ == "url"@ {
                OpenGraphObjV { url: Some(value@), properties: last.properties }
            } else {
                OpenGraphObjV {
                    url: last.url,
                    properties: assoc_set(last.properties, prop@, value@),
                }
            };
            final(list).deep_view() == grown.update(grown.len() - 1, updated)
        }),
        forall|j: int| 0 <= j < final(list)@.len() ==> keys_unique(
            #[trigger] final(list).deep_view()[j].properties,
        ),
{
    let ghost pre = old(list).deep_view();
    if list.len() == 0 {
        list.push(OpenGraphObj { url: None, properties: Vec::new() });
        proof {
            assert(list.deep_view() =~~= pre.push(
                OpenGraphObjV { url: None, properties: Seq::empty() },
            ));
        }
    }
    let ghost grown = list.deep_view();
    let mut last = list.pop().unwrap();
    let ghost lastv = last@;
    if str_eq(prop, "url") {
        last.url = Some(value.to_owned());
    } else {
        proof {
            lemma_assoc_set_unique(lastv.properties, prop@, value@);
        }
        insert_pair(&mut last.properties, prop, value);
    }
    proof {
        assert(grown[grown.len() - 1] == lastv);
    }
    list.push(last);
    proof {
        let updated = if prop@ == "url"@ {
            OpenGraphObjV { url: Some(value@), properties: lastv.properties }
        } else {
            OpenGraphObjV { url: lastv.url, properties: assoc_set(lastv.properties, prop@, value@) }
        };
        assert(last@ =~~= updated);
        assert(list.deep_view() =~~= grown.update(grown.len() - 1, updated));
    }
}

impl Icon {
    /// A visually blank icon to show when a page offers none.
    pub fn blank() -> (r: Self)
        ensures
            r.kind == IconKind::Favicon,
            r.url@ == "data:image/svg+xml,<svg xmlns='http://www.w3.org/2000/svg'/>"@,
            r.size is None,
            r.type_ is None,
    {
        Icon {
            url: "data:image/svg+xml,<svg xmlns='http://www.w3.org/2000/svg'/>".to_owned(),
            kind: IconKind::Favicon,
            size: None,
            type_: None,
        }
    }
}

/// The icon kind a `rel` attribute declares, if any.
pub fn icon_kind_for_rel(rel: &str) -> (r: Option<IconKind>)
    ensures
        rel@ == "icon"@ || rel@ == "shortcut icon"@ ==> r == Some(IconKind::Favicon),
        rel@ == "mask-icon"@ ==> r == Some(IconKind::MaskIcon),
        rel@ == "apple-touch-icon"@ ==> r == Some(IconKind::TouchIcon),
        !(rel@ == "icon"@ || rel@ == "shortcut icon"@ || rel@ == "mask-icon"@ || rel@
            == "apple-touch-icon"@) ==> r is None,
{
    proof {
        reveal_strlit("icon");
        reveal_strlit("shortcut icon");
        reveal_strlit("mask-icon");
        reveal_strlit("apple-touch-icon");
        assert("icon"@.len() == 4);
        assert("shortcut icon"@.len() == 13);
        assert("mask-icon"@.len() == 9);
        assert("apple-touch-icon"@.len() == 16);
    }
    if str_eq(rel, "icon") || str_eq(rel, "shortcut icon") {
        Some(IconKind::Favicon)
    } else if str_eq(rel, "mask-icon") {
        Some(IconKind::MaskIcon)
    } else if str_eq(rel, "apple-touch-icon") {
        Some(IconKind::TouchIcon)
    } else {
        None
    }
}

/// Whether an alternate link's `type` names a feed format.
pub fn is_feed_type(t: &str) -> (r: bool)
    ensures
        r == (t@ == "application/atom+xml"@ || t@ == "application/json"@ || t@
            == "application/rdf+xml"@ || t@ == "application/rss+xml"@ || t@ == "application/xml"@
            || t@ == "text/xml"@),
{
    str_eq(t, "application/atom+xml") || str_eq(t, "application/json") || str_eq(
        t,
        "application/rdf+xml",
    ) || str_eq(t, "application/rss+xml") || str_eq(t, "application/xml") || str_eq(t, "text/xml")
}

/// A decimal digit.
pub open spec fn is_dec_digit(c: char) -> bool {
    0x30 <= (c as u32) <= 0x39
}

/// Every character of `t` is a decimal digit.
pub open spec fn all_dec_digits(t: Seq<char>) -> bool {
    forall|j: int| 0 <= j < t.len() ==> is_dec_digit(t[j])
}

/// The numeric value of the digit string `t` (most significant first).
pub open spec fn digits_val(t: Seq<char>) -> nat
    decreases t.len(),
{
    if t.len() == 0 {
        0
    } else {
        digits_val(t.drop_last()) * 10 + ((t.last() as u32) - ('0' as u32)) as nat
    }
}

/// A longer digit prefix never has a smaller value.
proof fn lemma_digits_val_prefix(t: Seq<char>, k: int)
    requires
        0 <= k <= t.len(),
    ensures
        digits_val(t.take(k)) <= digits_val(t),
    decreases t.len() - k,
{
    if k < t.len() {
        lemma_digits_val_prefix(t, k + 1);
        assert(t.take(k + 1).drop_last() =~= t.take(k));
        assert(digits_val(t.take(k)) <= digits_val(t.take(k + 1)));
    } else {
        assert(t.take(k) =~= t);
    }
}

/// What parsing `t` as a 32-bit number yields: an optional plus sign, then
/// at least one digit, with the value in range.
pub open spec fn u32_parsed(t: Seq<char>) -> Option<u32> {
    let digits = if t.len() > 0 && t[0] == '+' {
        t.drop_first()
    } else {
        t
    };
    if digits.len() > 0 && all_dec_digits(digits) && digits_val(digits) <= u32::MAX {
        Some(digits_val(digits) as u32)
    } else {
        Option::None
    }
}

/// A non-digit anywhere among the digits makes the parse fail.
proof fn lemma_u32_parsed_none(t: Seq<char>, w: int)
    requires
        ({
            let digits = if t.len() > 0 && t[0] == '+' {
                t.drop_first()
            } else {
                t
            };
            0 <= w < digits.len() && !is_dec_digit(digits[w])
        }),
    ensures
        u32_parsed(t) is None,
{
    let digits = if t.len() > 0 && t[0] == '+' {
        t.drop_first()
    } else {
        t
    };
    assert(!all_dec_digits(digits)) by {
        assert(!is_dec_digit(digits[w]));
    }
}

/// Parse a decimal 32-bit number, with an optional leading plus sign.
pub fn parse_u32(s: &str) -> (r: Option<u32>)
    ensures
        r == u32_parsed(s@),
{
    let n = s.unicode_len();
    let start: usize = if n > 0 && s.get_char(0) == '+' {
        1
    } else {
        0
    };
    let ghost digits = if s@.len() > 0 && s@[0] == '+' {
        s@.drop_first()
    } else {
        s@
    };
    proof {
        assert(digits =~= s@.skip(start as int));
    }
    if n == start {
        return None;
    }
    let mut acc: u64 = 0;
    let mut i: usize = start;
    while i < n
        invariant
            start <= i <= n,
            n == s@.len(),
            digits == s@.skip(start as int),
            digits == (if s@.len() > 0 && s@[0] == '+' {
                s@.drop_first()
            } else {
                s@
            }),
            digits.len() == n - start,
            acc <= u32::MAX,
            acc == digits_val(digits.take(i - start)),
            forall|j: int| 0 <= j < i - start ==> is_dec_digit(digits[j]),
        decreases n - i,
    {
        let c = s.get_char(i);
        proof {
            assert(digits[i - start] == s@[i as int]);
        }
        let v = c as u32;
        if !(0x30 <= v && v <= 0x39) {
            proof {
                assert(!is_dec_digit(digits[i - start]));
                lemma_u32_parsed_none(s@, i - start);
            }
            return None;
        }
        let d = v - 0x30;
        let next: u64 = acc * 10 + (d as u64);
        proof {
            assert(digits.take(i - start + 1).drop_last() =~= digits.take(i - start));
            assert(digits.take(i - start + 1).last() == digits[i - start]);
        }
        if next > 0xffff_ffff {
            proof {
                lemma_digits_val_prefix(digits, i - start + 1);
            }
            return None;
        }
        acc = next;
        i = i + 1;
    }
    proof {
        assert(digits.take(n - start) =~= digits);
        assert(all_dec_digits(digits));
    }
    Some(acc as u32)
}

/// The size an icon declares, or the typical size of its kind when it
/// declares none: everything before the first `x` of its `sizes` attribute,
/// as a number.
pub open spec fn spec_effective_size(icon: Icon) -> u32 {
    let fallback: u32 = match icon.kind {
        IconKind::DefaultFavicon => 0,
        IconKind::Favicon => 0,
        IconKind::TouchIcon => 180,
        IconKind::MaskIcon => 32,
    };
    match icon.size {
        Some(s) => {
            let ci = char_index(s@, 'x');
            let prefix = if ci >= 0 {
                s@.take(ci)
            } else {
                s@
            };
            match u32_parsed(prefix) {
                Some(v) => v,
                Option::None => fallback,
            }
        },
        Option::None => fallback,
    }
}

fn effective_size(icon: &Icon) -> (r: u32)
    ensures
        r == spec_effective_size(*icon),
{
    let fallback: u32 = match icon.kind {
        IconKind::DefaultFavicon => 0,
        IconKind::Favicon => 0,
        IconKind::TouchIcon => 180,
        IconKind::MaskIcon => 32,
    };
    match &icon.size {
        Some(s) => {
            let st = s.as_str();
            let prefix = match find_char(st, 'x') {
                Some(ci) => st.substring_char(0, ci),
                None => st,
            };
            proof {
                let ci = char_index(s@, 'x');
                if ci >= 0 {
                    assert(prefix@ =~= s@.take(ci));
                }
            }
            match parse_u32(prefix) {
                Some(v) => v,
                None => fallback,
            }
        },
        None => fallback,
    }
}

/// How good an icon is for a wanted size; compared lexicographically, field
/// by field.
pub ghost struct IconScore {
    /// Not a monochrome mask icon.
    pub not_mask: bool,
    /// A scalable vector image.
    pub svg: bool,
    /// Within the acceptable size range.
    pub in_range: bool,
    /// How far under the wanted size, with anything smaller far behind.
    pub diff: int,
    /// Position in the list; declared icons beat the fallback favicon.
    pub index: int,
}

/// The score of the icon at position `i` for the wanted size `target` and
/// the acceptable range `lo .. hi`.
pub open spec fn icon_score(icon: Icon, i: int, target: u32, lo: u32, hi: u32) -> IconScore {
    let size = spec_effective_size(icon);
    IconScore {
        not_mask: !(icon.kind == IconKind::MaskIcon),
        svg: match icon.type_ {
            Some(t) => t@ == "image/svg+xml"@,
            Option::None => false,
        },
        in_range: lo <= size < hi,
        diff: if size < target {
            -4096
        } else {
            target - size
        },
        index: if icon.kind == IconKind::DefaultFavicon {
            -1
        } else {
            i
        },
    }
}

/// Lexicographic comparison of two scores, with false below true.
pub open spec fn score_ge(a: IconScore, b: IconScore) -> bool {
    if a.not_mask != b.not_mask {
        a.not_mask
    } else if a.svg != b.svg {
        a.svg
    } else if a.in_range != b.in_range {
        a.in_range
    } else if a.diff != b.diff {
        a.diff > b.diff
    } else {
        a.index >= b.index
    }
}

/// The position of the best-scoring icon, the latest among equals, as a
/// fold over the list.
pub open spec fn best_index(icons: Seq<Icon>, target: u32, lo: u32, hi: u32) -> int
    recommends
        icons.len() > 0,
    decreases icons.len(),
{
    if icons.len() <= 1 {
        0
    } else {
        let prev = best_index(icons.drop_last(), target, lo, hi);
        let last = icons.len() - 1;
        if score_ge(icon_score(icons[last], last, target, lo, hi), icon_score(icons[prev], prev, target, lo, hi)) {
            last
        } else {
            prev
        }
    }
}

fn score_parts(icon: &Icon, i: usize, target: u32, lo: u32, hi: u32) -> (r: (
    bool,
    bool,
    bool,
    i64,
    i64,
))
    requires
        i < 0x4000_0000_0000_0000,
    ensures
        ({
            let sc = icon_score(*icon, i as int, target, lo, hi);
            r.0 == sc.not_mask && r.1 == sc.svg && r.2 == sc.in_range && r.3 == sc.diff && r.4
                == sc.index
        }),
{
    let size = effective_size(icon);
    let not_mask = !matches!(icon.kind, IconKind::MaskIcon);
    let svg = match &icon.type_ {
        Some(t) => str_eq(t.as_str(), "image/svg+xml"),
        None => false,
    };
    let in_range = lo <= size && size < hi;
    let diff: i64 = if size < target {
        -4096
    } else {
        (target as i64) - (size as i64)
    };
    let index: i64 = if matches!(icon.kind, IconKind::DefaultFavicon) {
        -1
    } else {
        i as i64
    };
    (not_mask, svg, in_range, diff, index)
}

fn parts_ge(a: (bool, bool, bool, i64, i64), b: (bool, bool, bool, i64, i64)) -> (r: bool)
    ensures
        ({
            let sa = IconScore {
                not_mask: a.0,
                svg: a.1,
                in_range: a.2,
                diff: a.3 as int,
                index: a.4 as int,
            };
            let sb = IconScore {
                not_mask: b.0,
                svg: b.1,
                in_range: b.2,
                diff: b.3 as int,
                index: b.4 as int,
            };
            r == score_ge(sa, sb)
        }),
{
    if a.0 != b.0 {
        a.0
    } else if a.1 != b.1 {
        a.1
    } else if a.2 != b.2 {
        a.2
    } else if a.3 != b.3 {
        a.3 > b.3
    } else {
        a.4 >= b.4
    }
}

impl Info {
    /// The icon that best fits the wanted size `target` within the
    /// acceptable range: a cached choice wins outright; otherwise the
    /// best-scoring icon, the latest among equals; nothing when the page
    /// has no icons at all.
    pub fn best_icon(&self, target: u32, target_range: core::ops::Range<u32>) -> (r: Option<&Icon>)
        requires
            self.icons@.len() < 0x4000_0000_0000_0000,
        ensures
            self.cached_icon matches Some(c) ==> (r matches Some(ic) && *ic == c),
            self.cached_icon is None && self.icons@.len() == 0 ==> r is None,
            self.cached_icon is None && self.icons@.len() > 0 ==> (r matches Some(ic) && *ic
                == self.icons@[best_index(
                self.icons@,
                target,
                target_range.start,
                target_range.end,
            )]),
    {
        if let Some(icon) = &self.cached_icon {
            return Some(icon);
        }
        let n = self.icons.len();
        if n == 0 {
            return None;
        }
        let lo = target_range.start;
        let hi = target_range.end;
        let mut best: usize = 0;
        let mut best_parts = score_parts(&self.icons[0], 0, target, lo, hi);
        let mut i: usize = 1;
        proof {
            assert(self.icons@.take(1).len() == 1);
        }
        while i < n
            invariant
                1 <= i <= n,
                n == self.icons@.len(),
                n < 0x4000_0000_0000_0000,
                best < i,
                best as int == best_index(self.icons@.take(i as int), target, lo, hi),
                ({
                    let sc = icon_score(self.icons@[best as int], best as int, target, lo, hi);
                    best_parts.0 == sc.not_mask && best_parts.1 == sc.svg && best_parts.2
                        == sc.in_range && best_parts.3 == sc.diff && best_parts.4 == sc.index
                }),
            decreases n - i,
        {
            let parts = score_parts(&self.icons[i], i, target, lo, hi);
            let ghost pre = self.icons@.take(i as int);
            proof {
                assert(self.icons@.take(i + 1).drop_last() =~= pre);
                assert(self.icons@.take(i + 1)[i as int] == self.icons@[i as int]);
                assert(forall|j: int| 0 <= j < i ==> #[trigger] self.icons@.take(i + 1)[j]
                    == self.icons@[j]);
            }
            if parts_ge(parts, best_parts) {
                best = i;
                best_parts = parts;
            }
            i = i + 1;
        }
        proof {
            assert(self.icons@.take(n as int) =~= self.icons@);
        }
        Some(&self.icons[best])
    }
}

/// `s` without its leading whitespace.
pub open spec fn without_leading_ws(s: Seq<char>) -> Seq<char>
    decreases s.len(),
{
    if s.len() > 0 && crate::text::white(s[0]) {
        without_leading_ws(s.drop_first())
    } else {
        s
    }
}

/// `s` with every whitespace run shrunk to one space, `in_ws` telling
/// whether a run is already open; yields the text and whether it ended
/// inside a run.
pub open spec fn squashed(s: Seq<char>, in_ws: bool) -> (Seq<char>, bool)
    decreases s.len(),
{
    if s.len() == 0 {
        (Seq::<char>::empty(), in_ws)
    } else if crate::text::white(s[0]) {
        let rest = squashed(s.drop_first(), true);
        ((if in_ws {
            rest.0
        } else {
            seq![' '] + rest.0
        }), rest.1)
    } else {
        let rest = squashed(s.drop_first(), false);
        (seq![s[0]] + rest.0, rest.1)
    }
}

/// One segment joined on: leading whitespace goes when the text so far
/// ended in whitespace, then runs are squashed.
pub open spec fn normalized_segment(seg: Seq<char>, ended_ws: bool) -> (Seq<char>, bool) {
    squashed(
        if ended_ws {
            without_leading_ws(seg)
        } else {
            seg
        },
        false,
    )
}

/// The segments joined with whitespace merged, stopping after the segment
/// that reaches `max` characters.
pub open spec fn normalized_join(
    segs: Seq<Seq<char>>,
    ended_ws: bool,
    len_so_far: int,
    max: Option<int>,
) -> Seq<char>
    decreases segs.len(),
{
    if segs.len() == 0 {
        Seq::<char>::empty()
    } else {
        let piece = normalized_segment(segs[0], ended_ws);
        if max matches Some(m) && len_so_far + piece.0.len() >= m {
            piece.0
        } else {
            piece.0 + normalized_join(segs.drop_first(), piece.1, len_so_far + piece.0.len(), max)
        }
    }
}

/// The length of `s` without its trailing whitespace.
pub open spec fn trimmed_end_len(s: Seq<char>) -> nat
    decreases s.len(),
{
    if s.len() > 0 && crate::text::white(s.last()) {
        trimmed_end_len(s.drop_last())
    } else {
        s.len()
    }
}

/// The full normalisation: segments joined with whitespace runs merged into
/// single spaces, trailing whitespace dropped, and the result cut at `max`
/// characters.
pub open spec fn normalized_text(segs: Seq<Seq<char>>, max: Option<int>) -> Seq<char> {
    let full = normalized_join(segs, true, 0, max);
    let trimmed = trimmed_end_len(full) as int;
    let cut = match max {
        Some(m) => if trimmed <= m {
            trimmed
        } else {
            m
        },
        Option::None => trimmed,
    };
    full.take(cut)
}

/// The length of `v` without its trailing whitespace.
fn trimmed_len(v: &Vec<char>) -> (keep: usize)
    ensures
        keep <= v@.len(),
        trimmed_end_len(v@) == keep,
{
    let mut keep: usize = v.len();
    proof {
        assert(v@.take(keep as int) =~= v@);
    }
    while keep > 0
        invariant
            keep <= v@.len(),
            trimmed_end_len(v@) == trimmed_end_len(v@.take(keep as int)),
        decreases keep,
    {
        let c = v[keep - 1];
        proof {
            assert(v@.take(keep as int).last() == v@[keep as int - 1]);
        }
        if !crate::text::is_whitespace_char(c) {
            proof {
                assert(trimmed_end_len(v@.take(keep as int)) == keep);
            }
            return keep;
        }
        proof {
            assert(v@.take(keep as int).drop_last() =~= v@.take(keep - 1));
        }
        keep = keep - 1;
    }
    proof {
        assert(v@.take(0) =~= Seq::<char>::empty());
    }
    0
}

/// Position of the first non-whitespace character of `seg`.
fn skip_leading_ws(seg: &str) -> (j: usize)
    ensures
        j <= seg@.len(),
        without_leading_ws(seg@) == seg@.skip(j as int),
{
    let n = seg.unicode_len();
    let mut j: usize = 0;
    proof {
        assert(seg@.skip(0) =~= seg@);
    }
    while j < n
        invariant
            j <= n,
            n == seg@.len(),
            without_leading_ws(seg@) == without_leading_ws(seg@.skip(j as int)),
        decreases n - j,
    {
        let c = seg.get_char(j);
        proof {
            assert(seg@.skip(j as int)[0] == seg@[j as int]);
        }
        if !crate::text::is_whitespace_char(c) {
            return j;
        }
        proof {
            assert(seg@.skip(j as int).drop_first() =~= seg@.skip(j + 1));
        }
        j = j + 1;
    }
    proof {
        assert(seg@.skip(n as int) =~= Seq::<char>::empty());
    }
    n
}

/// Join text segments, merging every whitespace run into a single space and
/// trimming the end; optionally truncate at `max` characters.
pub fn normalize_whitespace_text(segments: &Vec<String>, max: Option<usize>) -> (r: String)
    ensures
        r@ == normalized_text(
            segments.deep_view(),
            match max {
                Some(m) => Some(m as int),
                None => Option::None,
            },
        ),
{
    let ghost dv = segments.deep_view();
    let ghost maxv: Option<int> = match max {
        Some(m) => Some(m as int),
        None => Option::None,
    };
    let ghost full = normalized_join(dv, true, 0, maxv);
    let mut out: Vec<char> = Vec::new();
    let mut ended_ws = true;
    let count = segments.len();
    let mut si: usize = 0;
    let mut stopped = false;
    proof {
        assert(dv.skip(0) =~= dv);
        assert(Seq::<char>::empty() + full =~= full);
    }
    while si < count && !stopped
        invariant
            si <= count,
            count == segments@.len(),
            dv == segments.deep_view(),
            maxv == (match max {
                Some(m) => Some(m as int),
                None => Option::<int>::None,
            }),
            full == normalized_join(dv, true, 0, maxv),
            !stopped ==> full == out@ + normalized_join(
                dv.skip(si as int),
                ended_ws,
                out@.len() as int,
                maxv,
            ),
            stopped ==> out@ == full,
        decreases count - si,
    {
        let seg = segments[si].as_str();
        let ghost segv = dv[si as int];
        proof {
            assert(segv == segments@[si as int]@);
        }
        let n = seg.unicode_len();
        let j0: usize = if ended_ws {
            skip_leading_ws(seg)
        } else {
            0
        };
        let ghost start_tail = seg@.skip(j0 as int);
        let ghost piece = normalized_segment(segv, ended_ws);
        proof {
            if !ended_ws {
                assert(seg@.skip(0) =~= seg@);
            }
            assert(piece == squashed(start_tail, false));
        }
        let ghost out_before = out@;
        let mut in_ws = false;
        let mut j: usize = j0;
        while j < n
            invariant
                j0 <= j <= n,
                n == seg@.len(),
                segv == seg@,
                piece == squashed(start_tail, false),
                start_tail == seg@.skip(j0 as int),
                out@.len() >= out_before.len(),
                out@.subrange(0, out_before.len() as int) == out_before,
                piece.0 == out@.subrange(out_before.len() as int, out@.len() as int) + squashed(
                    seg@.skip(j as int),
                    in_ws,
                ).0,
                piece.1 == squashed(seg@.skip(j as int), in_ws).1,
            decreases n - j,
        {
            let c = seg.get_char(j);
            let ghost pre = out@;
            proof {
                assert(seg@.skip(j as int)[0] == seg@[j as int]);
                assert(seg@.skip(j as int).drop_first() =~= seg@.skip(j + 1));
            }
            if crate::text::is_whitespace_char(c) {
                if !in_ws {
                    out.push(' ');
                    in_ws = true;
                }
            } else {
                out.push(c);
                in_ws = false;
            }
            proof {
                assert(out@.subrange(0, out_before.len() as int) =~= out_before);
                assert(out@.subrange(out_before.len() as int, out@.len() as int) =~= (
                pre.subrange(out_before.len() as int, pre.len() as int) + out@.subrange(
                    pre.len() as int,
                    out@.len() as int,
                )));
                assert(piece.0 =~= out@.subrange(out_before.len() as int, out@.len() as int)
                    + squashed(seg@.skip(j + 1), in_ws).0);
            }
            j = j + 1;
        }
        proof {
            assert(seg@.skip(n as int) =~= Seq::<char>::empty());
            assert(out@ =~= out_before + piece.0);
        }
        ended_ws = in_ws;
        match max {
            Some(m) => {
                if out.len() >= m {
                    stopped = true;
                }
            },
            None => {},
        }
        proof {
            assert(dv.skip(si as int)[0] == dv[si as int]);
            assert(dv.skip(si as int).drop_first() =~= dv.skip(si + 1));
            if !stopped {
                assert(out_before + (piece.0 + normalized_join(
                    dv.skip(si + 1),
                    piece.1,
                    out_before.len() + piece.0.len() as int,
                    maxv,
                )) =~= (out_before + piece.0) + normalized_join(
                    dv.skip(si + 1),
                    piece.1,
                    out_before.len() + piece.0.len() as int,
                    maxv,
                ));
            }
        }
        si = si + 1;
    }
    proof {
        if !stopped {
            assert(dv.skip(count as int) =~= Seq::<Seq<char>>::empty());
            assert(out@ + Seq::<char>::empty() =~= out@);
        }
        assert(out@ == full);
    }
    let keep = trimmed_len(&out);
    let cut: usize = match max {
        Some(m) => if keep <= m {
            keep
        } else {
            m
        },
        None => keep,
    };
    out.truncate(cut);
    proof {
        assert(out@ =~= normalized_text(dv, maxv));
    }
    crate::text::chars_to_string(&out)
}

} // verus!
