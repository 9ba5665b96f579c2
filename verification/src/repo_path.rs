//! Paths of files and directories inside a repository.

use crate::text;
use vstd::prelude::*;

verus! {

/// A file or directory name inside the repository: not empty, without `/`.
pub open spec fn is_name(name: Seq<char>) -> bool {
    name.len() > 0 && !name.contains('/')
}

/// A path is a sequence of names; the empty sequence is the root directory.
pub open spec fn is_path(path: Seq<Seq<char>>) -> bool {
    forall|i: int| 0 <= i < path.len() ==> is_name(#[trigger] path[i])
}

/// The separator between the names of a path.
pub open spec fn slash() -> Seq<char> {
    seq!['/']
}

/// The text form of a path: its names with `/` between them.
pub open spec fn internal_string(path: Seq<Seq<char>>) -> Seq<char> {
    text::joined(path, slash())
}

/// The text form of a directory: it ends in `/`, unless it is the root.
pub open spec fn internal_dir_string(path: Seq<Seq<char>>) -> Seq<char> {
    if path.len() == 0 {
        Seq::empty()
    } else {
        internal_string(path) + slash()
    }
}

/// Which texts are the text form of a path: those that neither start nor end
/// with `/` and hold no two of them in a row.
pub open spec fn is_internal_form(s: Seq<char>) -> bool {
    s.len() > 0 ==> {
        &&& s[0] != '/'
        &&& s.last() != '/'
        &&& forall|i: int| 0 <= i < s.len() - 1 ==> !(#[trigger] s[i] == '/' && s[i + 1] == '/')
    }
}

/// A path inside the repository.
#[derive(Debug, PartialEq, Eq)]
pub struct RepoPath {
    components: Vec<String>,
}

impl View for RepoPath {
    type V = Seq<Seq<char>>;

    closed spec fn view(&self) -> Seq<Seq<char>> {
        text::views(self.components@)
    }
}

/// The views of a list of paths.
pub open spec fn path_views(list: Seq<RepoPath>) -> Seq<Seq<Seq<char>>> {
    list.map_values(|path: RepoPath| path@)
}

impl Clone for RepoPath {
    fn clone(&self) -> (r: Self)
        ensures
            r@ == self@,
    {
        proof {
            use_type_invariant(self);
        }
        let components = text::copy_strings(&self.components);
        RepoPath { components }
    }
}

impl RepoPath {
    /// Every component is a name.
    #[verifier::type_invariant]
    pub open spec fn valid(self) -> bool {
        is_path(self@)
    }

    /// The root directory of the repository.
    pub fn root() -> (r: RepoPath)
        ensures
            r@ == Seq::<Seq<char>>::empty(),
    {
        let components: Vec<String> = Vec::new();
        assert(text::views(components@) =~= Seq::<Seq<char>>::empty());
        RepoPath { components }
    }

    /// Reads the text form of a path.
    pub fn from_internal_string(s: &str) -> (r: Option<RepoPath>)
        ensures
            r is Some <==> is_internal_form(s@),
            r matches Some(p) ==> is_path(p@) && internal_string(p@) == s@,
    {
        let chars = text::chars_of(s);
        let mut components: Vec<String> = Vec::new();
        let mut current: Vec<char> = Vec::new();
        assert(text::views(components@) =~= Seq::<Seq<char>>::empty());
        assert(chars@.take(0) =~= current@);
        for i in 0..chars.len()
            invariant
                chars@ == s@,
                is_path(text::views(components@)),
                !current@.contains('/'),
                chars@.take(i as int) == if components@.len() == 0 {
                    current@
                } else {
                    internal_string(text::views(components@)) + slash() + current@
                },
                current@.len() == 0 ==> i == 0 || chars@[i - 1] == '/',
                current@.len() > 0 ==> i > 0 && chars@[i - 1] != '/',
                i > 0 ==> chars@[0] != '/',
                components@.len() > 0 ==> i > 0,
                forall|j: int|
                    0 <= j < i - 1 ==> !(#[trigger] chars@[j] == '/' && chars@[j + 1] == '/'),
        {
            let c = chars[i];
            proof {
                assert(chars@.take(i + 1) =~= chars@.take(i as int).push(c));
            }
            if c == '/' {
                if current.len() == 0 {
                    proof {
                        if i > 0 {
                            assert(chars@[i - 1] == '/' && chars@[i - 1 + 1] == '/');
                        }
                    }
                    return None;
                }
                let ghost before = components@;
                let name = text::string_of(&current);
                proof {
                    text::lemma_joined_push(text::views(before), name@, slash());
                    assert(text::views(before.push(name)) =~= text::views(before).push(name@));
                    assert(chars@.take(i + 1) =~= internal_string(text::views(before.push(name)))
                        + slash() + Seq::<char>::empty());
                }
                components.push(name);
                current = Vec::new();
                assert(current@ =~= Seq::<char>::empty());
            } else {
                proof {
                    assert forall|k: int| 0 <= k < current@.push(c).len() implies #[trigger] current@.push(c)[k]
                        != '/' by {
                        if k < current@.len() {
                            assert(current@.contains(current@[k]));
                        }
                    }
                    if components@.len() > 0 {
                        assert(chars@.take(i + 1) =~= internal_string(text::views(components@))
                            + slash() + current@.push(c));
                    }
                }
                current.push(c);
            }
        }
        assert(chars@.take(chars@.len() as int) =~= chars@);
        if chars.len() == 0 {
            assert(components@.len() == 0);
            assert(text::views(components@) =~= Seq::<Seq<char>>::empty());
            return Some(RepoPath { components });
        }
        if current.len() == 0 {
            return None;
        }
        let ghost before = components@;
        let name = text::string_of(&current);
        proof {
            text::lemma_joined_push(text::views(before), name@, slash());
            assert(text::views(before.push(name)) =~= text::views(before).push(name@));
        }
        components.push(name);
        let path = RepoPath { components };
        assert(internal_string(path@) =~= s@);
        Some(path)
    }

    /// The text form of the path.
    pub fn to_internal_string(&self) -> (r: String)
        ensures
            r@ == internal_string(self@),
    {
        proof {
            reveal_strlit("/");
            assert("/"@ =~= slash());
        }
        text::join(&self.components, "/")
    }

    /// The text form of the path as a directory.
    pub fn to_internal_dir_string(&self) -> (r: String)
        ensures
            r@ == internal_dir_string(self@),
    {
        let mut r = self.to_internal_string();
        if self.components.len() > 0 {
            r.push('/');
            assert(r@ =~= internal_string(self@) + slash());
        }
        r
    }

    /// How many names the path has.
    pub fn len(&self) -> (r: usize)
        ensures
            r == self@.len(),
    {
        self.components.len()
    }

    /// Whether the path is the root directory.
    pub fn is_root(&self) -> (r: bool)
        ensures
            r == (self@.len() == 0),
    {
        self.components.len() == 0
    }

    /// The name at index `i`.
    pub fn component(&self, i: usize) -> (r: &str)
        requires
            i < self@.len(),
        ensures
            r@ == self@[i as int],
    {
        self.components[i].as_str()
    }

    /// The first `n` names.
    pub fn take(&self, n: usize) -> (r: RepoPath)
        requires
            n <= self@.len(),
        ensures
            r@ == self@.take(n as int),
    {
        self.range(0, n)
    }

    /// The names behind the first `n`.
    pub fn skip(&self, n: usize) -> (r: RepoPath)
        requires
            n <= self@.len(),
        ensures
            r@ == self@.skip(n as int),
    {
        let len = self.components.len();
        let r = self.range(n, len);
        assert(self@.subrange(n as int, len as int) =~= self@.skip(n as int));
        r
    }

    fn range(&self, from: usize, to: usize) -> (r: RepoPath)
        requires
            from <= to <= self@.len(),
        ensures
            r@ == self@.subrange(from as int, to as int),
    {
        proof {
            use_type_invariant(self);
        }
        let mut components: Vec<String> = Vec::new();
        assert(text::views(components@) =~= self@.subrange(from as int, from as int));
        for i in from..to
            invariant
                from <= to <= self@.len(),
                text::views(components@) == self@.subrange(from as int, i as int),
        {
            let ghost before = components@;
            components.push(self.components[i].clone());
            assert(text::views(components@) =~= text::views(before).push(self@[i as int]));
            assert(self@.subrange(from as int, i + 1) =~= self@.subrange(
                from as int,
                i as int,
            ).push(self@[i as int]));
        }
        RepoPath { components }
    }

    /// The directory that the path stands in; the root stands in none.
    pub fn parent(&self) -> (r: Option<RepoPath>)
        ensures
            r is None <==> self@.len() == 0,
            r matches Some(p) ==> p@ == self@.drop_last(),
    {
        if self.components.len() == 0 {
            return None;
        }
        let n = self.components.len() - 1;
        let r = self.take(n);
        assert(r@ =~= self@.drop_last());
        Some(r)
    }

    /// Whether the path stands, directly or deeper, below the directory `dir`.
    pub fn is_below(&self, dir: &RepoPath) -> (r: bool)
        ensures
            r == (dir@.len() < self@.len() && dir@.is_prefix_of(self@)),
    {
        if dir.components.len() >= self.components.len() {
            return false;
        }
        for i in 0..dir.components.len()
            invariant
                dir@.len() < self@.len(),
                forall|j: int| 0 <= j < i ==> #[trigger] dir@[j] == self@[j],
        {
            if dir.components[i] != self.components[i] {
                assert(dir@[i as int] != self@[i as int]);
                return false;
            }
        }
        assert(dir@ =~= self@.take(dir@.len() as int));
        true
    }

    /// Whether two paths are the same.
    pub fn same(&self, other: &RepoPath) -> (r: bool)
        ensures
            r == (self@ == other@),
    {
        text::same_strings(&self.components, &other.components)
    }

    /// Whether the path comes before `other` in path order.
    pub fn precedes(&self, other: &RepoPath) -> (r: bool)
        ensures
            r == path_less(self@, other@),
    {
        let mut i: usize = 0;
        assert(self@.skip(0) =~= self@);
        assert(other@.skip(0) =~= other@);
        while i < self.components.len() && i < other.components.len()
            invariant
                i <= self@.len(),
                i <= other@.len(),
                path_less(self@, other@) == path_less(
                    self@.skip(i as int),
                    other@.skip(i as int),
                ),
            decreases self@.len() - i,
        {
            assert(self@.skip(i as int).skip(1) =~= self@.skip(i + 1));
            assert(other@.skip(i as int).skip(1) =~= other@.skip(i + 1));
            if self.components[i] != other.components[i] {
                return name_precedes(self.components[i].as_str(), other.components[i].as_str());
            }
            i = i + 1;
        }
        i < other.components.len()
    }
}

/// Byte strings compared byte by byte; a proper prefix comes first.
pub open spec fn bytes_less(a: Seq<u8>, b: Seq<u8>) -> bool
    decreases a.len(),
{
    if b.len() == 0 {
        false
    } else if a.len() == 0 {
        true
    } else if a[0] != b[0] {
        a[0] < b[0]
    } else {
        bytes_less(a.skip(1), b.skip(1))
    }
}

/// Names are ordered by their UTF-8 bytes.
pub open spec fn name_less(a: Seq<char>, b: Seq<char>) -> bool {
    bytes_less(vstd::utf8::encode_utf8(a), vstd::utf8::encode_utf8(b))
}

/// Paths are ordered name by name; a directory comes before what it holds.
pub open spec fn path_less(a: Seq<Seq<char>>, b: Seq<Seq<char>>) -> bool
    decreases a.len(),
{
    if b.len() == 0 {
        false
    } else if a.len() == 0 {
        true
    } else if a[0] != b[0] {
        name_less(a[0], b[0])
    } else {
        path_less(a.skip(1), b.skip(1))
    }
}

/// Whether the name `a` comes before the name `b`.
fn name_precedes(a: &str, b: &str) -> (r: bool)
    ensures
        r == name_less(a@, b@),
{
    let x = a.as_bytes();
    let y = b.as_bytes();
    let mut i: usize = 0;
    assert(x@.skip(0) =~= x@);
    assert(y@.skip(0) =~= y@);
    while i < x.len() && i < y.len()
        invariant
            i <= x@.len(),
            i <= y@.len(),
            x@ == vstd::utf8::encode_utf8(a@),
            y@ == vstd::utf8::encode_utf8(b@),
            bytes_less(x@, y@) == bytes_less(x@.skip(i as int), y@.skip(i as int)),
        decreases x@.len() - i,
    {
        assert(x@.skip(i as int).skip(1) =~= x@.skip(i + 1));
        assert(y@.skip(i as int).skip(1) =~= y@.skip(i + 1));
        if x[i] != y[i] {
            return x[i] < y[i];
        }
        i = i + 1;
    }
    i < y.len()
}

proof fn lemma_bytes_less_irreflexive(a: Seq<u8>)
    ensures
        !bytes_less(a, a),
    decreases a.len(),
{
    if a.len() > 0 {
        lemma_bytes_less_irreflexive(a.skip(1));
    }
}

proof fn lemma_bytes_less_transitive(a: Seq<u8>, b: Seq<u8>, c: Seq<u8>)
    requires
        bytes_less(a, b),
        bytes_less(b, c),
    ensures
        bytes_less(a, c),
    decreases a.len(),
{
    if a.len() > 0 && a[0] == b[0] && b[0] == c[0] {
        lemma_bytes_less_transitive(a.skip(1), b.skip(1), c.skip(1));
    }
}

proof fn lemma_bytes_less_total(a: Seq<u8>, b: Seq<u8>)
    ensures
        bytes_less(a, b) || a == b || bytes_less(b, a),
    decreases a.len(),
{
    if a.len() > 0 && b.len() > 0 && a[0] == b[0] {
        lemma_bytes_less_total(a.skip(1), b.skip(1));
        if a.skip(1) == b.skip(1) {
            assert(a =~= seq![a[0]] + a.skip(1));
            assert(b =~= seq![b[0]] + b.skip(1));
        }
    } else if a.len() == 0 && b.len() == 0 {
        assert(a =~= b);
    }
}

proof fn lemma_name_less_order(a: Seq<char>, b: Seq<char>, c: Seq<char>)
    ensures
        !name_less(a, a),
        name_less(a, b) && name_less(b, c) ==> name_less(a, c),
        name_less(a, b) || a == b || name_less(b, a),
{
    let (x, y, z) = (
        vstd::utf8::encode_utf8(a),
        vstd::utf8::encode_utf8(b),
        vstd::utf8::encode_utf8(c),
    );
    lemma_bytes_less_irreflexive(x);
    lemma_bytes_less_total(x, y);
    if bytes_less(x, y) && bytes_less(y, z) {
        lemma_bytes_less_transitive(x, y, z);
    }
    vstd::utf8::encode_utf8_decode_utf8(a);
    vstd::utf8::encode_utf8_decode_utf8(b);
}

/// No path comes before itself.
pub proof fn lemma_path_order_irreflexive(a: Seq<Seq<char>>)
    ensures
        !path_less(a, a),
    decreases a.len(),
{
    if a.len() > 0 {
        lemma_path_order_irreflexive(a.skip(1));
    }
}

/// What comes before something that comes before `c` comes before `c`.
pub proof fn lemma_path_order_transitive(
    a: Seq<Seq<char>>,
    b: Seq<Seq<char>>,
    c: Seq<Seq<char>>,
)
    requires
        path_less(a, b),
        path_less(b, c),
    ensures
        path_less(a, c),
    decreases a.len(),
{
    if a.len() > 0 {
        lemma_name_less_order(a[0], b[0], c[0]);
        lemma_name_less_order(b[0], a[0], b[0]);
        if a[0] == b[0] && b[0] == c[0] {
            lemma_path_order_transitive(a.skip(1), b.skip(1), c.skip(1));
        }
    }
}

/// Of two different paths one comes before the other.
pub proof fn lemma_path_order_total(a: Seq<Seq<char>>, b: Seq<Seq<char>>)
    ensures
        path_less(a, b) || a == b || path_less(b, a),
    decreases a.len(),
{
    if a.len() > 0 && b.len() > 0 {
        lemma_name_less_order(a[0], b[0], a[0]);
        if a[0] == b[0] {
            lemma_path_order_total(a.skip(1), b.skip(1));
            if a.skip(1) == b.skip(1) {
                assert(a =~= seq![a[0]] + a.skip(1));
                assert(b =~= seq![b[0]] + b.skip(1));
            }
        }
    } else if a.len() == 0 && b.len() == 0 {
        assert(a =~= b);
    }
}

/// The text form starts with the first name, up to its first `/`.
proof fn lemma_first_name(path: Seq<Seq<char>>)
    requires
        is_path(path),
        path.len() > 0,
    ensures
        internal_string(path).len() >= path[0].len(),
        internal_string(path).take(path[0].len() as int) == path[0],
        forall|i: int|
            0 <= i < path[0].len() ==> #[trigger] internal_string(path)[i] == path[0][i]
                && path[0][i] != '/',
        path.len() == 1 ==> internal_string(path) == path[0],
        path.len() > 1 ==> {
            &&& internal_string(path).len() > path[0].len()
            &&& internal_string(path)[path[0].len() as int] == '/'
            &&& internal_string(path).skip(path[0].len() as int + 1) == internal_string(path.skip(1))
        },
{
    let s = internal_string(path);
    let first = path[0];
    assert(is_name(first));
    assert forall|i: int| 0 <= i < first.len() implies #[trigger] s[i] == first[i] && first[i]
        != '/' by {
        assert(first.contains(first[i]));
    }
    assert(s.take(first.len() as int) =~= first);
    if path.len() > 1 {
        assert(s.skip(first.len() as int + 1) =~= internal_string(path.skip(1)));
    }
}

/// Two paths with the same text form are the same path.
pub proof fn law_text_form_determines_path(a: Seq<Seq<char>>, b: Seq<Seq<char>>)
    requires
        is_path(a),
        is_path(b),
        internal_string(a) == internal_string(b),
    ensures
        a == b,
    decreases a.len(),
{
    if a.len() == 0 || b.len() == 0 {
        if a.len() > 0 {
            lemma_first_name(a);
            assert(is_name(a[0]));
        }
        if b.len() > 0 {
            lemma_first_name(b);
            assert(is_name(b[0]));
        }
        assert(a =~= b);
    } else {
        let s = internal_string(a);
        lemma_first_name(a);
        lemma_first_name(b);
        let (m, n) = (a[0].len() as int, b[0].len() as int);
        if m < n {
            assert(s[m] == b[0][m]);
            assert(a.len() == 1 || s[m] == '/');
        } else if n < m {
            assert(s[n] == a[0][n]);
            assert(b.len() == 1 || s[n] == '/');
        }
        assert(a[0] == b[0]);
        assert(a.len() == 1 <==> s.len() == m);
        assert(b.len() == 1 <==> s.len() == n);
        if a.len() > 1 {
            assert(is_path(a.skip(1)));
            assert(is_path(b.skip(1)));
            law_text_form_determines_path(a.skip(1), b.skip(1));
            assert(a =~= seq![a[0]] + a.skip(1));
            assert(b =~= seq![b[0]] + b.skip(1));
        } else {
            assert(a =~= seq![a[0]]);
            assert(b =~= seq![b[0]]);
        }
    }
}

/// The text form of a path is one that can be read back.
pub proof fn law_text_form_is_readable(path: Seq<Seq<char>>)
    requires
        is_path(path),
    ensures
        is_internal_form(internal_string(path)),
    decreases path.len(),
{
    if path.len() > 0 {
        let s = internal_string(path);
        let n = path[0].len() as int;
        lemma_first_name(path);
        assert(is_name(path[0]));
        assert(s[0] == path[0][0]);
        if path.len() == 1 {
            assert(s[n - 1] == path[0][n - 1]);
            assert forall|i: int| 0 <= i < s.len() - 1 implies !(#[trigger] s[i] == '/' && s[i + 1]
                == '/') by {
                assert(s[i] == path[0][i]);
            }
        } else {
            let rest = internal_string(path.skip(1));
            assert(is_path(path.skip(1)));
            law_text_form_is_readable(path.skip(1));
            lemma_first_name(path.skip(1));
            assert(is_name(path[1]));
            assert(rest == s.skip(n + 1));
            assert(rest.len() > 0);
            assert(s.last() == rest.last());
            assert forall|i: int| 0 <= i < s.len() - 1 implies !(#[trigger] s[i] == '/' && s[i + 1]
                == '/') by {
                if i < n {
                    assert(s[i] == path[0][i]);
                } else if i == n {
                    assert(s[n + 1] == rest[0]);
                } else {
                    assert(s[i] == rest[i - n - 1]);
                    assert(s[i + 1] == rest[i - n - 1 + 1]);
                }
            }
        }
    }
}

/// The text form of a path is `name`, or ends in `/` and `name`, exactly when
/// `name` is the last name of the path.
pub proof fn lemma_last_name(path: Seq<Seq<char>>, name: Seq<char>)
    requires
        is_path(path),
        path.len() > 0,
        is_name(name),
    ensures
        (internal_string(path) == name || (slash() + name).is_suffix_of(internal_string(path)))
            <==> path.last() == name,
{
    let s = internal_string(path);
    let last = path.last();
    let dir = path.drop_last();
    assert(dir.push(last) =~= path);
    text::lemma_joined_push(dir, last, slash());
    assert(is_name(last));
    if dir.len() == 0 {
        assert(s == last);
        if (slash() + name).is_suffix_of(s) {
            let at = s.len() - name.len() - 1;
            assert(s.subrange(at, s.len() as int)[0] == '/');
            assert(s[at] == '/');
            assert(last.contains('/'));
        }
    } else {
        let at = s.len() - last.len() - 1;
        assert(s == internal_string(dir) + slash() + last);
        assert(s[at] == '/');
        assert(s.skip(at + 1) =~= last);
        if s == name {
            assert(name.contains('/'));
        }
        if (slash() + name).is_suffix_of(s) {
            let from = s.len() - name.len() - 1;
            let tail = s.subrange(from, s.len() as int);
            assert(tail == slash() + name);
            assert(tail[0] == '/');
            assert(s[from] == '/');
            if name.len() > last.len() {
                assert(name[at - from - 1] == tail[at - from]);
                assert(name.contains('/'));
            } else if name.len() < last.len() {
                assert(last[from - at - 1] == s[from]);
                assert(last.contains('/'));
            }
            assert(from == at);
            assert(name =~= last) by {
                assert forall|i: int| 0 <= i < name.len() implies name[i] == last[i] by {
                    assert(name[i] == tail[i + 1]);
                    assert(last[i] == s[at + 1 + i]);
                }
            }
        }
        if last == name {
            assert((slash() + name) =~= s.subrange(at, s.len() as int));
        }
    }
}

/// Any text is a name but the empty one and those that hold a slash, and a path
/// is made of names alone.
pub proof fn law_names_hold_no_slash(path: Seq<Seq<char>>)
    ensures
        is_path(path) <==> forall|i: int|
            0 <= i < path.len() ==> (#[trigger] path[i]).len() > 0 && !path[i].contains('/'),
{
    if is_path(path) {
        assert forall|i: int| 0 <= i < path.len() implies (#[trigger] path[i]).len() > 0
            && !path[i].contains('/') by {
            assert(is_name(path[i]));
        }
    }
}

/// The text form of a path has a slash between every two names, and as that of a
/// directory one behind the last.
pub proof fn law_slashes_stand_between_names(path: Seq<Seq<char>>, name: Seq<char>)
    ensures
        internal_string(Seq::empty()) == Seq::<char>::empty(),
        internal_string(seq![name]) == name,
        path.len() > 0 ==> internal_string(path.push(name)) == internal_string(path) + seq!['/']
            + name,
        internal_dir_string(Seq::empty()) == Seq::<char>::empty(),
        path.len() > 0 ==> internal_dir_string(path) == internal_string(path) + seq!['/'],
{
    text::law_joining_puts_the_separator_between(path, name, slash());
}

/// A path comes before what is below it, and of two paths that differ in a name
/// the one with the lesser name there comes first, whatever follows.
pub proof fn law_paths_are_ordered_name_by_name(
    dir: Seq<Seq<char>>,
    a: Seq<char>,
    b: Seq<char>,
    s: Seq<Seq<char>>,
    t: Seq<Seq<char>>,
)
    ensures
        path_less(dir, dir + seq![a] + s),
        name_less(a, b) ==> path_less(dir + seq![a] + s, dir + seq![b] + t),
    decreases dir.len(),
{
    let x = dir + seq![a] + s;
    let y = dir + seq![b] + t;
    if dir.len() > 0 {
        law_paths_are_ordered_name_by_name(dir.skip(1), a, b, s, t);
        assert(x.skip(1) =~= dir.skip(1) + seq![a] + s);
        assert(y.skip(1) =~= dir.skip(1) + seq![b] + t);
        lemma_name_less_order(dir[0], dir[0], dir[0]);
    } else if name_less(a, b) {
        assert(x[0] == a);
        assert(y[0] == b);
        lemma_name_less_order(a, b, a);
    }
}

/// Names are ordered by their bytes: a name comes before every longer one that
/// starts with it, and the first byte in which two names differ decides.
pub proof fn law_names_are_ordered_by_bytes(
    a: Seq<char>,
    b: Seq<char>,
    start: Seq<u8>,
    x: u8,
    y: u8,
    s: Seq<u8>,
    t: Seq<u8>,
)
    requires
        vstd::utf8::encode_utf8(b) == start + seq![y] + t,
        vstd::utf8::encode_utf8(a) == start || (x < y && vstd::utf8::encode_utf8(a) == start
            + seq![x] + s),
    ensures
        name_less(a, b),
{
    lemma_bytes_order(start, x, y, s, t);
}

proof fn lemma_bytes_order(start: Seq<u8>, x: u8, y: u8, s: Seq<u8>, t: Seq<u8>)
    ensures
        bytes_less(start, start + seq![y] + t),
        x < y ==> bytes_less(start + seq![x] + s, start + seq![y] + t),
    decreases start.len(),
{
    if start.len() > 0 {
        lemma_bytes_order(start.skip(1), x, y, s, t);
        assert((start + seq![x] + s).skip(1) =~= start.skip(1) + seq![x] + s);
        assert((start + seq![y] + t).skip(1) =~= start.skip(1) + seq![y] + t);
    }
}

/// The views of a list are those of its paths, one for one.
pub proof fn law_path_views_are_one_for_one(list: Seq<RepoPath>, i: int)
    requires
        0 <= i < list.len(),
    ensures
        path_views(list).len() == list.len(),
        path_views(list)[i] == list[i]@,
{
}

} // verus!
