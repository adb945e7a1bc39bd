//! Names of tenants and of what belongs to them, and sets of names.

use vstd::prelude::*;
use vstd::utf8::*;

use crate::table::Table;
use crate::text;

verus! {

/// The most bytes that a name may have.
pub const MAX_ID_BYTES: usize = 256;

/// A name: not blank, no control characters, not too long.
pub open spec fn is_id(value: Seq<char>) -> bool {
    &&& !text::is_blank(value)
    &&& forall|i: int| 0 <= i < value.len() ==> !text::is_control(#[trigger] value[i])
    &&& text::byte_len(value) <= MAX_ID_BYTES
}

pub fn valid_id(value: &str) -> (r: bool)
    ensures
        r == is_id(value@),
{
    if text::blank(value) || text::text_bytes(value) > MAX_ID_BYTES {
        return false;
    }
    let chars = text::chars_of(value);
    let mut i: usize = 0;
    while i < chars.len()
        invariant
            chars@ == value@,
            i <= chars@.len(),
            forall|k: int| 0 <= k < i ==> !text::is_control(#[trigger] chars@[k]),
        decreases chars@.len() - i,
    {
        if text::control(chars[i]) {
            proof {
                assert(text::is_control(value@[i as int]));
            }
            return false;
        }
        i = i + 1;
    }
    true
}

/// The key of something that belongs to an organization: the length of the
/// organization's name, the name, and the name of the thing.
pub open spec fn owned_key(organization_id: Seq<char>, resource_id: Seq<char>) -> Seq<char> {
    text::decimal_text(text::byte_len(organization_id)) + ":"@ + organization_id + ":"@
        + resource_id
}

pub fn tenant_key(organization_id: &str, resource_id: &str) -> (key: String)
    ensures
        key@ == owned_key(organization_id@, resource_id@),
{
    let mut key: Vec<char> = text::decimal(text::text_bytes(organization_id) as u64);
    text::push_text(&mut key, ":");
    text::push_text(&mut key, organization_id);
    text::push_text(&mut key, ":");
    text::push_text(&mut key, resource_id);
    text::string_of(key.as_slice())
}

/// The key of a usage count: of a count in a workspace, perhaps none, of an
/// organization.
pub open spec fn usage_key_of(
    organization_id: Seq<char>,
    workspace_id: Option<Seq<char>>,
    usage_key: Seq<char>,
) -> Seq<char> {
    owned_key(
        organization_id,
        owned_key(
            match workspace_id {
                Some(name) => name,
                None => Seq::empty(),
            },
            usage_key,
        ),
    )
}

/// The text of an optional string slice.
pub open spec fn optional_str(value: Option<&str>) -> Option<Seq<char>> {
    match value {
        Some(name) => Some(name@),
        None => None,
    }
}

pub fn usage_key_for(organization_id: &str, workspace_id: Option<&str>, usage_key: &str) -> (key:
    String)
    ensures
        key@ == usage_key_of(organization_id@, optional_str(workspace_id), usage_key@),
{
    let inner = match workspace_id {
        Some(name) => tenant_key(name, usage_key),
        None => {
            proof {
                reveal_strlit("");
                assert(""@ =~= Seq::<char>::empty());
            }
            tenant_key("", usage_key)
        },
    };
    tenant_key(organization_id, inner.as_str())
}

// ---------------------------------------------------------------------------
// Keys do not collide

/// The bytes of one text behind another.
pub proof fn lemma_bytes_concat(a: Seq<char>, b: Seq<char>)
    ensures
        encode_utf8(a + b) == encode_utf8(a) + encode_utf8(b),
    decreases a.len(),
{
    if a.len() == 0 {
        assert(a + b =~= b);
        assert(encode_utf8(a) + encode_utf8(b) =~= encode_utf8(b));
    } else {
        assert((a + b).drop_first() =~= a.drop_first() + b);
        lemma_bytes_concat(a.drop_first(), b);
        let first = encode_scalar(a[0] as u32);
        assert((a + b)[0] == a[0]);
        assert(encode_utf8(a + b) =~= first + encode_utf8(a.drop_first() + b));
        assert(encode_utf8(a) =~= first + encode_utf8(a.drop_first()));
        assert(encode_utf8(a + b) =~= encode_utf8(a) + encode_utf8(b));
    }
}

/// A text that is not empty has bytes.
pub proof fn lemma_some_bytes(a: Seq<char>)
    requires
        a.len() > 0,
    ensures
        text::byte_len(a) > 0,
{
    if encode_utf8(a) == encode_utf8(Seq::<char>::empty()) {
        crate::table::lemma_same_bytes(a, Seq::empty());
    }
    if encode_utf8(a).len() == 0 {
        assert(encode_utf8(a) =~= encode_utf8(Seq::<char>::empty()));
    }
}

/// Two texts of as many bytes that start the same text are the same.
proof fn lemma_same_start(a: Seq<char>, rest_a: Seq<char>, b: Seq<char>, rest_b: Seq<char>)
    requires
        a + rest_a == b + rest_b,
        text::byte_len(a) == text::byte_len(b),
    ensures
        a == b,
        rest_a == rest_b,
{
    let x = a + rest_a;
    let y = b + rest_b;
    if a.len() < b.len() {
        let more = b.skip(a.len() as int);
        assert(b =~= a + more) by {
            assert forall|i: int| 0 <= i < a.len() implies a[i] == b[i] by {
                assert(x[i] == a[i]);
                assert(y[i] == b[i]);
            }
        }
        lemma_bytes_concat(a, more);
        lemma_some_bytes(more);
    } else if b.len() < a.len() {
        let more = a.skip(b.len() as int);
        assert(a =~= b + more) by {
            assert forall|i: int| 0 <= i < b.len() implies a[i] == b[i] by {
                assert(x[i] == a[i]);
                assert(y[i] == b[i]);
            }
        }
        lemma_bytes_concat(b, more);
        lemma_some_bytes(more);
    }
    let n = a.len() as int;
    assert((a + rest_a).take(n) =~= a);
    assert((b + rest_b).take(n) =~= b);
    assert((a + rest_a).skip(n) =~= rest_a);
    assert((b + rest_b).skip(n) =~= rest_b);
}

/// A number and a text behind it, a colon between them, can be told apart.
proof fn lemma_number_apart(m: nat, rest_m: Seq<char>, n: nat, rest_n: Seq<char>)
    requires
        text::decimal_text(m) + (seq![':'] + rest_m) == text::decimal_text(n) + (seq![':']
            + rest_n),
    ensures
        m == n,
        rest_m == rest_n,
{
    let a = text::decimal_text(m);
    let b = text::decimal_text(n);
    let x = a + (seq![':'] + rest_m);
    let y = b + (seq![':'] + rest_n);
    text::lemma_decimal(m);
    text::lemma_decimal(n);
    assert(x[a.len() as int] == ':');
    assert(y[b.len() as int] == ':');
    if a.len() < b.len() {
        assert(y[a.len() as int] == b[a.len() as int]);
        assert(text::is_ascii_digit(b[a.len() as int]));
    }
    if b.len() < a.len() {
        assert(x[b.len() as int] == a[b.len() as int]);
        assert(text::is_ascii_digit(a[b.len() as int]));
    }
    let k = a.len() as int;
    assert(x.take(k) =~= a);
    assert(y.take(k) =~= b);
    assert(x.skip(k + 1) =~= rest_m);
    assert(y.skip(k + 1) =~= rest_n);
}

/// Keys of different organizations, or of different things, differ.
pub proof fn keys_tell_owners_apart(
    organization_a: Seq<char>,
    resource_a: Seq<char>,
    organization_b: Seq<char>,
    resource_b: Seq<char>,
)
    requires
        owned_key(organization_a, resource_a) == owned_key(organization_b, resource_b),
    ensures
        organization_a == organization_b,
        resource_a == resource_b,
{
    reveal_strlit(":");
    assert(":"@ =~= seq![':']);
    let rest_a = organization_a + (seq![':'] + resource_a);
    let rest_b = organization_b + (seq![':'] + resource_b);
    let m = text::byte_len(organization_a);
    let n = text::byte_len(organization_b);
    assert(owned_key(organization_a, resource_a) =~= text::decimal_text(m) + (seq![':'] + rest_a));
    assert(owned_key(organization_b, resource_b) =~= text::decimal_text(n) + (seq![':'] + rest_b));
    lemma_number_apart(m, rest_a, n, rest_b);
    lemma_same_start(
        organization_a,
        seq![':'] + resource_a,
        organization_b,
        seq![':'] + resource_b,
    );
    assert((seq![':'] + resource_a).skip(1) =~= resource_a);
    assert((seq![':'] + resource_b).skip(1) =~= resource_b);
}

/// Usage counts of different organizations, workspaces or kinds have different
/// keys.
pub proof fn usage_keys_tell_owners_apart(
    organization_a: Seq<char>,
    workspace_a: Option<Seq<char>>,
    usage_a: Seq<char>,
    organization_b: Seq<char>,
    workspace_b: Option<Seq<char>>,
    usage_b: Seq<char>,
)
    requires
        workspace_a is Some ==> is_id(workspace_a->0),
        workspace_b is Some ==> is_id(workspace_b->0),
        usage_key_of(organization_a, workspace_a, usage_a) == usage_key_of(
            organization_b,
            workspace_b,
            usage_b,
        ),
    ensures
        organization_a == organization_b,
        workspace_a == workspace_b,
        usage_a == usage_b,
{
    let name_a = match workspace_a {
        Some(name) => name,
        None => Seq::empty(),
    };
    let name_b = match workspace_b {
        Some(name) => name,
        None => Seq::empty(),
    };
    keys_tell_owners_apart(
        organization_a,
        owned_key(name_a, usage_a),
        organization_b,
        owned_key(name_b, usage_b),
    );
    keys_tell_owners_apart(name_a, usage_a, name_b, usage_b);
}

// ---------------------------------------------------------------------------
// Sets of names

/// A set of texts, in byte order.
#[derive(Debug)]
pub struct TextSet {
    members: Table<()>,
}

impl View for TextSet {
    type V = Set<Seq<char>>;

    closed spec fn view(&self) -> Set<Seq<char>> {
        self.members@.dom()
    }
}

impl TextSet {
    /// The members in order.
    pub closed spec fn items(&self) -> Seq<Seq<char>> {
        self.members.keys()
    }

    pub fn new() -> (set: TextSet)
        ensures
            set@ == Set::<Seq<char>>::empty(),
    {
        let set = TextSet { members: Table::new() };
        proof {
            assert(set@ =~= Set::<Seq<char>>::empty());
        }
        set
    }

    pub fn contains(&self, name: &str) -> (r: bool)
        ensures
            r == self@.contains(name@),
    {
        self.members.contains(name)
    }

    pub fn insert(&mut self, name: String)
        ensures
            final(self)@ == old(self)@.insert(name@),
    {
        self.members.insert(name, ());
        proof {
            assert(self@ =~= old(self)@.insert(name@));
        }
    }

    pub fn remove(&mut self, name: &str) -> (removed: bool)
        ensures
            final(self)@ == old(self)@.remove(name@),
            removed == old(self)@.contains(name@),
    {
        let removed = self.members.remove(name).is_some();
        proof {
            assert(self@ =~= old(self)@.remove(name@));
        }
        removed
    }

    /// The number of members; every member has a place in the order.
    pub fn len(&self) -> (n: usize)
        ensures
            n == self.items().len(),
            n == self@.len(),
            self@ == self.items().to_set(),
            self@.finite(),
            forall|i: int, j: int|
                0 <= i < j < self.items().len() ==> crate::table::text_before(
                    #[trigger] self.items()[i],
                    #[trigger] self.items()[j],
                ),
    {
        self.members.len()
    }

    pub fn is_empty(&self) -> (r: bool)
        ensures
            r == (self@ == Set::<Seq<char>>::empty()),
    {
        let n: usize = self.members.len();
        proof {
            if n > 0 {
                assert(self@.contains(self.members.keys()[0]));
            } else {
                assert(self@ =~= Set::<Seq<char>>::empty());
            }
        }
        n == 0
    }

    pub fn item(&self, i: usize) -> (name: &String)
        requires
            i < self.items().len(),
        ensures
            name@ == self.items()[i as int],
            self@.contains(name@),
    {
        self.members.key_at(i)
    }

    /// The same set once more.
    pub fn copy(&self) -> (set: TextSet)
        ensures
            set@ == self@,
    {
        let mut set = TextSet::new();
        let n: usize = self.len();
        let mut i: usize = 0;
        while i < n
            invariant
                i <= n,
                n == self.items().len(),
                set@ == self.items().take(i as int).to_set(),
            decreases n - i,
        {
            let name = self.item(i).clone();
            proof {
                assert(self.items().take(i + 1) =~= self.items().take(i as int).push(name@));
                lemma_set_push(self.items().take(i as int), name@);
            }
            set.insert(name);
            i = i + 1;
        }
        proof {
            assert(self.items().take(n as int) =~= self.items());
        }
        set
    }
}

proof fn lemma_set_push(s: Seq<Seq<char>>, t: Seq<char>)
    ensures
        s.push(t).to_set() == s.to_set().insert(t),
{
    assert forall|x: Seq<char>| #[trigger]
        s.push(t).to_set().contains(x) == s.to_set().insert(t).contains(x) by {
        if s.contains(x) {
            let i = choose|i: int| 0 <= i < s.len() && s[i] == x;
            assert(s.push(t)[i] == x);
        }
        if x == t {
            assert(s.push(t)[s.len() as int] == t);
        }
        if s.push(t).contains(x) && x != t {
            let i = choose|i: int| 0 <= i < s.push(t).len() && s.push(t)[i] == x;
            assert(s[i] == x);
        }
    }
    assert(s.push(t).to_set() =~= s.to_set().insert(t));
}

/// The texts of a list that are not blank.
pub open spec fn solid_set(list: Seq<Seq<char>>) -> Set<Seq<char>> {
    list.to_set().filter(|t: Seq<char>| !text::is_blank(t))
}

/// The set of the texts of a list that are not blank.
pub fn collect_solid(list: &Vec<String>) -> (set: TextSet)
    ensures
        set@ == solid_set(text::texts(list@)),
{
    let ghost all = text::texts(list@);
    let mut set = TextSet::new();
    let mut i: usize = 0;
    proof {
        assert(all.take(0).to_set() =~= Set::<Seq<char>>::empty());
        assert(solid_set(all.take(0)) =~= Set::<Seq<char>>::empty());
    }
    while i < list.len()
        invariant
            i <= list@.len(),
            all == text::texts(list@),
            set@ == solid_set(all.take(i as int)),
        decreases list@.len() - i,
    {
        proof {
            assert(all.take(i + 1) =~= all.take(i as int).push(list@[i as int]@));
            lemma_set_push(all.take(i as int), list@[i as int]@);
        }
        if !text::blank(list[i].as_str()) {
            set.insert(list[i].clone());
        }
        proof {
            assert(set@ =~= solid_set(all.take(i + 1)));
        }
        i = i + 1;
    }
    proof {
        assert(all.take(all.len() as int) =~= all);
    }
    set
}

/// The set of the texts of a list.
pub fn collect(list: &Vec<String>) -> (set: TextSet)
    ensures
        set@ == text::texts(list@).to_set(),
{
    let ghost all = text::texts(list@);
    let mut set = TextSet::new();
    let mut i: usize = 0;
    proof {
        assert(all.take(0).to_set() =~= Set::<Seq<char>>::empty());
    }
    while i < list.len()
        invariant
            i <= list@.len(),
            all == text::texts(list@),
            set@ == all.take(i as int).to_set(),
        decreases list@.len() - i,
    {
        proof {
            assert(all.take(i + 1) =~= all.take(i as int).push(list@[i as int]@));
            lemma_set_push(all.take(i as int), list@[i as int]@);
        }
        set.insert(list[i].clone());
        i = i + 1;
    }
    proof {
        assert(all.take(all.len() as int) =~= all);
    }
    set
}

/// Every member of the set is a name.
pub open spec fn all_ids(set: Set<Seq<char>>) -> bool {
    forall|t: Seq<char>| #[trigger] set.contains(t) ==> is_id(t)
}

pub fn every_id(set: &TextSet) -> (r: bool)
    ensures
        r == all_ids(set@),
{
    let n: usize = set.len();
    let mut i: usize = 0;
    while i < n
        invariant
            i <= n,
            n == set.items().len(),
            set@ == set.items().to_set(),
            forall|k: int| 0 <= k < i ==> is_id(#[trigger] set.items()[k]),
        decreases n - i,
    {
        if !valid_id(set.item(i).as_str()) {
            proof {
                assert(set@.contains(set.items()[i as int]));
            }
            return false;
        }
        i = i + 1;
    }
    proof {
        assert forall|t: Seq<char>| #[trigger] set@.contains(t) implies is_id(t) by {
            let k = choose|k: int| 0 <= k < set.items().len() && set.items()[k] == t;
            assert(is_id(set.items()[k]));
        }
    }
    true
}

/// A text is a name exactly when some character of it is no white space, none is a
/// control, and its bytes are 256 at most.
pub proof fn names_are_short_and_plain(value: Seq<char>)
    ensures
        is_id(value) == {
            &&& exists|i: int| 0 <= i < value.len() && !text::is_white_space(#[trigger] value[i])
            &&& forall|i: int|
                0 <= i < value.len() ==> (32 <= #[trigger] value[i] as u32) && !(127
                    <= value[i] as u32 <= 159)
            &&& vstd::utf8::encode_utf8(value).len() <= 256
        },
{
    assert forall|i: int| 0 <= i < value.len() implies text::is_control(value[i]) == !((32
        <= #[trigger] value[i] as u32) && !(127 <= value[i] as u32 <= 159)) by {
        text::white_space_and_controls_by_code(value[i]);
    }
    if is_id(value) {
        assert forall|i: int| 0 <= i < value.len() implies (32 <= #[trigger] value[i] as u32)
            && !(127 <= value[i] as u32 <= 159) by {
            assert(!text::is_control(value[i]));
        }
    }
}

/// What an owner has is kept under the length of the owner's name in bytes, that name and
/// the name of the thing; what is used is kept under the workspace within the owner, the
/// empty one where none is named.
pub proof fn keys_name_owner_and_thing(owner: Seq<char>, workspace: Seq<char>, thing: Seq<char>)
    ensures
        owned_key(owner, thing) == text::decimal_text(vstd::utf8::encode_utf8(owner).len())
            + seq![':'] + owner + seq![':'] + thing,
        usage_key_of(owner, Some(workspace), thing) == owned_key(
            owner,
            owned_key(workspace, thing),
        ),
        usage_key_of(owner, None, thing) == owned_key(owner, owned_key(Seq::empty(), thing)),
{
    reveal_strlit(":");
    assert(":"@ =~= seq![':']);
}

/// Of a list of names those are taken that are not blank.
pub proof fn solid_names_are_taken(list: Seq<Seq<char>>, name: Seq<char>)
    ensures
        solid_set(list).contains(name) <==> list.contains(name) && exists|i: int|
            0 <= i < name.len() && !text::is_white_space(#[trigger] name[i]),
{
}

} // verus!
