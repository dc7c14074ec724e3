use vstd::prelude::*;
use vstd::string::*;

use crate::os_text;
use crate::text;

verus! {

/// A path as text, with `/` between its names. Bytes of a name that are no Unicode are kept
/// in it by private-use characters (`os_text::KEPT`).
///
/// Two paths are the same path when their models (`@`) are equal, whatever
/// their texts are: `a//b` and `a/./b` are both the path `a/b`.
#[derive(Debug)]
pub struct FilePath {
    pub text: String,
}

/// What a path stands for: whether it starts at the root, and the names that
/// lead from there to its end. A name is never empty and holds no `/`; `.`
/// stands only in front of a path that does not start at the root.
#[verifier::ext_equal]
pub struct PathModel {
    pub rooted: bool,
    pub names: Seq<Seq<char>>,
}

/// The characters of a path's extension, where it has one and that is Unicode.
pub open spec fn unicode_extension_of(model: PathModel) -> Option<Seq<char>> {
    match extension_of(model) {
        Some(extension) => os_text::unicode_of(extension),
        None => None,
    }
}

/// The pieces of `text` that `/` separates, empty ones too.
pub open spec fn pieces(text: Seq<char>) -> Seq<Seq<char>>
    decreases text.len(),
{
    if text.len() == 0 {
        seq![Seq::<char>::empty()]
    } else {
        let before = pieces(text.drop_last());
        if text.last() == '/' {
            before.push(Seq::<char>::empty())
        } else {
            before.drop_last().push(before.last().push(text.last()))
        }
    }
}

/// Whether the piece at `index` is a name of the path.
pub open spec fn is_name(piece: Seq<char>, index: int) -> bool {
    piece.len() > 0 && (piece != seq!['.'] || index == 0)
}

/// The names among the pieces of a path.
pub open spec fn names_among(list: Seq<Seq<char>>) -> Seq<Seq<char>>
    decreases list.len(),
{
    if list.len() == 0 {
        Seq::empty()
    } else {
        let before = names_among(list.drop_last());
        if is_name(list.last(), list.len() - 1) {
            before.push(list.last())
        } else {
            before
        }
    }
}

/// The path that `text` stands for.
pub open spec fn path_of(text: Seq<char>) -> PathModel {
    PathModel { rooted: text.len() > 0 && text[0] == '/', names: names_among(pieces(text)) }
}

impl View for FilePath {
    type V = PathModel;

    open spec fn view(&self) -> PathModel {
        path_of(self.text@)
    }
}

/// `names` with `/` between them.
pub open spec fn joined(names: Seq<Seq<char>>) -> Seq<char>
    decreases names.len(),
{
    if names.len() == 0 {
        Seq::empty()
    } else if names.len() == 1 {
        names[0]
    } else {
        joined(names.drop_last()).push('/') + names.last()
    }
}

/// The shortest text of a path.
pub open spec fn render(model: PathModel) -> Seq<char> {
    if model.rooted {
        seq!['/'] + joined(model.names)
    } else {
        joined(model.names)
    }
}

/// Whether the model is that of some text.
pub open spec fn model_wf(model: PathModel) -> bool {
    forall|i: int|
        #![trigger model.names[i]]
        0 <= i < model.names.len() ==> name_wf(model.names[i]) && (model.names[i] == seq!['.']
            ==> i == 0 && !model.rooted)
}

/// Whether `name` can stand between two separators.
pub open spec fn name_wf(name: Seq<char>) -> bool {
    name.len() > 0 && !name.contains('/')
}

/// The last name of a path, unless it is `.` or `..`.
pub open spec fn last_name(model: PathModel) -> Option<Seq<char>> {
    if model.names.len() > 0 && model.names.last() != seq!['.'] && model.names.last() != seq![
        '.',
        '.',
    ] {
        Some(model.names.last())
    } else {
        None
    }
}

/// The path without its last name.
pub open spec fn parent_of(model: PathModel) -> Option<PathModel> {
    if model.names.len() > 0 {
        Some(PathModel { rooted: model.rooted, names: model.names.drop_last() })
    } else {
        None
    }
}

/// Where the extension of a file name starts: behind its last dot, unless that
/// dot is the first character.
pub open spec fn is_extension_dot(name: Seq<char>, dot: int) -> bool {
    0 < dot < name.len() && name[dot] == '.' && forall|j: int| dot < j < name.len() ==> name[j] != '.'
}

/// The extension of a path, without its dot.
pub open spec fn extension_of(model: PathModel) -> Option<Seq<char>> {
    match last_name(model) {
        None => None,
        Some(name) => if exists|dot: int| is_extension_dot(name, dot) {
            Some(name.skip(extension_dot_of(name) + 1))
        } else {
            None
        },
    }
}

/// The dot in front of the extension of a file name that has one.
pub open spec fn extension_dot_of(name: Seq<char>) -> int {
    choose|dot: int| is_extension_dot(name, dot)
}

proof fn lemma_pieces_nonempty(text: Seq<char>)
    ensures
        pieces(text).len() > 0,
    decreases text.len(),
{
    if text.len() > 0 {
        lemma_pieces_nonempty(text.drop_last());
    }
}

/// No piece holds a separator.
proof fn lemma_pieces_have_no_separator(text: Seq<char>)
    ensures
        forall|i: int| 0 <= i < pieces(text).len() ==> !(#[trigger] pieces(text)[i]).contains('/'),
    decreases text.len(),
{
    if text.len() > 0 {
        let before = pieces(text.drop_last());
        lemma_pieces_nonempty(text.drop_last());
        lemma_pieces_have_no_separator(text.drop_last());
        assert forall|i: int| 0 <= i < pieces(text).len() implies !(#[trigger] pieces(
            text,
        )[i]).contains('/') by {
            if i < before.len() - 1 || (text.last() == '/' && i < before.len()) {
                assert(pieces(text)[i] == before[i]);
            } else if text.last() != '/' {
                let piece = before.last().push(text.last());
                assert(pieces(text)[i] == piece);
                assert(!before[before.len() - 1].contains('/'));
                if piece.contains('/') {
                    let j = choose|j: int| 0 <= j < piece.len() && piece[j] == '/';
                    assert(before.last()[j] == '/');
                }
            }
        }
    }
}

/// A text that starts with the separator has an empty first piece, and any
/// other text does not (unless it is empty).
proof fn lemma_first_piece(text: Seq<char>)
    requires
        text.len() > 0,
    ensures
        text[0] == '/' <==> pieces(text)[0].len() == 0,
        text[0] == '/' ==> pieces(text).len() >= 2,
    decreases text.len(),
{
    reveal_with_fuel(pieces, 2);
    lemma_pieces_nonempty(text.drop_last());
    if text.len() > 1 {
        assert(text.drop_last()[0] == text[0]);
        lemma_first_piece(text.drop_last());
    }
}

proof fn lemma_names_among(list: Seq<Seq<char>>)
    ensures
        names_among(list).len() <= list.len(),
        forall|i: int|
            0 <= i < names_among(list).len() ==> list.contains(#[trigger] names_among(list)[i])
                && names_among(list)[i].len() > 0,
        forall|i: int|
            0 < i < names_among(list).len() ==> (#[trigger] names_among(list)[i]) != seq!['.'],
        names_among(list).len() > 0 && names_among(list)[0] == seq!['.'] ==> list[0] == seq!['.'],
    decreases list.len(),
{
    if list.len() > 0 {
        let front = list.drop_last();
        lemma_names_among(front);
        assert forall|i: int| 0 <= i < names_among(list).len() implies list.contains(
            #[trigger] names_among(list)[i],
        ) && names_among(list)[i].len() > 0 by {
            if i < names_among(front).len() {
                let k = choose|k: int| 0 <= k < front.len() && front[k] == names_among(front)[i];
                assert(list[k] == names_among(list)[i]);
            } else {
                assert(list[list.len() - 1] == names_among(list)[i]);
            }
        }
        if names_among(front).len() > 0 {
            assert(front.contains(names_among(front)[0]));
        }
        if names_among(list).len() > 0 && names_among(list)[0] == seq!['.'] {
            if names_among(front).len() > 0 {
                assert(names_among(list)[0] == names_among(front)[0]);
            }
        }
    }
}

/// Every text stands for a well-formed path.
pub proof fn lemma_path_of_wf(text: Seq<char>)
    ensures
        model_wf(path_of(text)),
{
    let list = pieces(text);
    let names = names_among(list);
    lemma_names_among(list);
    lemma_pieces_have_no_separator(text);
    assert forall|i: int| #![trigger names[i]] 0 <= i < names.len() implies name_wf(names[i]) && (
    names[i] == seq!['.'] ==> i == 0 && !path_of(text).rooted) by {
        assert(list.contains(names[i]));
        if text.len() > 0 {
            lemma_first_piece(text);
        }
    }
}

/// The pieces of two texts with a separator between them are those of the first
/// and then those of the second.
proof fn lemma_pieces_concat(a: Seq<char>, b: Seq<char>)
    ensures
        pieces(a.push('/') + b) == pieces(a) + pieces(b),
    decreases b.len(),
{
    let whole = a.push('/') + b;
    lemma_pieces_nonempty(a);
    if b.len() == 0 {
        assert(whole =~= a.push('/'));
        assert(whole.drop_last() =~= a);
        assert(pieces(whole) =~= pieces(a) + pieces(b));
    } else {
        let front = a.push('/') + b.drop_last();
        assert(whole.drop_last() =~= front);
        lemma_pieces_concat(a, b.drop_last());
        lemma_pieces_nonempty(b.drop_last());
        assert(whole.last() == b.last());
        assert(pieces(whole) =~= pieces(a) + pieces(b));
    }
}

/// The names of a path that stands behind another one: a leading `.` is not
/// one of them.
pub open spec fn inner_names(names: Seq<Seq<char>>) -> Seq<Seq<char>> {
    if names.len() > 0 && names[0] == seq!['.'] {
        names.skip(1)
    } else {
        names
    }
}

proof fn lemma_names_among_concat(x: Seq<Seq<char>>, y: Seq<Seq<char>>)
    requires
        x.len() > 0,
    ensures
        names_among(x + y) == names_among(x) + inner_names(names_among(y)),
    decreases y.len(),
{
    if y.len() == 0 {
        assert(x + y =~= x);
        assert(names_among(x + y) =~= names_among(x) + inner_names(names_among(y)));
    } else {
        let front = y.drop_last();
        assert((x + y).drop_last() =~= x + front);
        lemma_names_among_concat(x, front);
        lemma_names_among(front);
        assert((x + y).last() == y.last());
        assert(names_among(x + y) =~= names_among(x) + inner_names(names_among(y)));
    }
}

proof fn lemma_pieces_of_name(name: Seq<char>)
    requires
        !name.contains('/'),
    ensures
        pieces(name) == seq![name],
    decreases name.len(),
{
    if name.len() > 0 {
        let front = name.drop_last();
        assert forall|j: int| 0 <= j < front.len() implies front[j] != '/' by {
            assert(name[j] != '/');
        }
        lemma_pieces_of_name(front);
        assert(name.contains(name.last()));
        assert(front.push(name.last()) =~= name);
        assert(pieces(name) =~= seq![name]);
    } else {
        assert(name =~= Seq::<char>::empty());
    }
}

proof fn lemma_pieces_of_joined(names: Seq<Seq<char>>)
    requires
        names.len() > 0,
        forall|i: int| 0 <= i < names.len() ==> name_wf(#[trigger] names[i]),
    ensures
        pieces(joined(names)) == names,
        joined(names).len() > 0,
        joined(names)[0] != '/',
    decreases names.len(),
{
    if names.len() == 1 {
        lemma_pieces_of_name(names[0]);
        assert(pieces(joined(names)) =~= names);
        assert(names[0].contains(names[0][0]));
    } else {
        let front = names.drop_last();
        lemma_pieces_of_joined(front);
        lemma_pieces_concat(joined(front), names.last());
        lemma_pieces_of_name(names.last());
        assert(pieces(joined(names)) =~= names);
    }
}

proof fn lemma_names_among_names(names: Seq<Seq<char>>)
    requires
        forall|i: int|
            0 <= i < names.len() ==> (#[trigger] names[i]).len() > 0 && (names[i] == seq!['.'] ==> i
                == 0),
    ensures
        names_among(names) == names,
    decreases names.len(),
{
    if names.len() > 0 {
        lemma_names_among_names(names.drop_last());
        assert(names_among(names) =~= names);
    }
}

/// The rendered text of a well-formed path stands for that path again.
pub proof fn lemma_render_round_trip(model: PathModel)
    requires
        model_wf(model),
    ensures
        path_of(render(model)) == model,
{
    let names = model.names;
    let text = render(model);
    assert forall|i: int| 0 <= i < names.len() implies (#[trigger] names[i]).len() > 0 && (names[i]
        == seq!['.'] ==> i == 0) by {
        assert(name_wf(names[i]));
    }
    lemma_names_among_names(names);
    if names.len() > 0 {
        lemma_pieces_of_joined(names);
    }
    if model.rooted {
        let empty = Seq::<char>::empty();
        assert(text =~= empty.push('/') + joined(names));
        lemma_pieces_concat(empty, joined(names));
        assert(pieces(empty) =~= seq![empty]);
        assert(names_among(seq![empty]) =~= Seq::<Seq<char>>::empty()) by {
            assert(names_among(seq![empty].drop_last()) =~= Seq::<Seq<char>>::empty());
        }
        lemma_names_among_concat(seq![empty], pieces(joined(names)));
        if names.len() == 0 {
            assert(pieces(joined(names)) =~= seq![empty]);
        }
        assert(path_of(text).names =~= names);
    } else if names.len() == 0 {
        assert(pieces(text) =~= seq![Seq::<char>::empty()]);
        assert(names_among(pieces(text).drop_last()) =~= Seq::<Seq<char>>::empty());
        assert(path_of(text).names =~= names);
    }
    assert(path_of(text) =~= model);
}

/// Paths with the same rendered text are the same path.
pub proof fn lemma_render_injective(a: PathModel, b: PathModel)
    requires
        model_wf(a),
        model_wf(b),
        render(a) == render(b),
    ensures
        a == b,
{
    lemma_render_round_trip(a);
    lemma_render_round_trip(b);
}

/// The text of `b` taken from `a` on: a separator is put between the two where
/// `a` does not end with one, and a `b` that starts at the root stands alone.
pub open spec fn join_text(a: Seq<char>, b: Seq<char>) -> Seq<char> {
    if b.len() > 0 && b[0] == '/' {
        b
    } else if a.len() > 0 && a.last() != '/' {
        a.push('/') + b
    } else {
        a + b
    }
}

/// The path `b`, taken from `a` on.
pub open spec fn join_model(a: PathModel, b: PathModel) -> PathModel {
    if b.rooted || (!a.rooted && a.names.len() == 0) {
        b
    } else {
        PathModel { rooted: a.rooted, names: a.names + inner_names(b.names) }
    }
}

/// Only the empty text stands for the empty path.
pub proof fn lemma_empty_path(text: Seq<char>)
    ensures
        text.len() == 0 <==> !path_of(text).rooted && path_of(text).names.len() == 0,
{
    reveal_with_fuel(names_among, 2);
    if text.len() > 0 && text[0] != '/' {
        lemma_first_piece(text);
        lemma_pieces_nonempty(text);
        let list = pieces(text);
        assert(list =~= seq![list[0]] + list.skip(1));
        lemma_names_among_concat(seq![list[0]], list.skip(1));
        assert(names_among(seq![list[0]]) =~= seq![list[0]]);
    } else if text.len() == 0 {
        assert(pieces(text) =~= seq![Seq::<char>::empty()]);
        assert(names_among(pieces(text)) =~= Seq::<Seq<char>>::empty());
    }
}

/// Joining texts joins the paths that they stand for.
pub proof fn lemma_join(a: Seq<char>, b: Seq<char>)
    ensures
        path_of(join_text(a, b)) == join_model(path_of(a), path_of(b)),
{
    lemma_empty_path(a);
    if b.len() > 0 && b[0] == '/' {
    } else if a.len() == 0 {
        assert(a + b =~= b);
    } else if a.last() != '/' {
        lemma_pieces_nonempty(a);
        lemma_pieces_concat(a, b);
        lemma_names_among_concat(pieces(a), pieces(b));
        assert(path_of(join_text(a, b)) =~= join_model(path_of(a), path_of(b)));
    } else {
        let front = a.drop_last();
        assert(a + b =~= front.push('/') + b);
        lemma_pieces_concat(front, b);
        lemma_pieces_nonempty(front);
        lemma_names_among_concat(pieces(front), pieces(b));
        assert(pieces(a).drop_last() =~= pieces(front));
        assert(names_among(pieces(a)) == names_among(pieces(front)));
        assert(path_of(join_text(a, b)) =~= join_model(path_of(a), path_of(b)));
    }
}

impl Clone for FilePath {
    fn clone(&self) -> (r: Self)
        ensures
            r == *self,
    {
        FilePath { text: self.text.clone() }
    }
}

impl FilePath {
    /// The path that has the characters of `text`.
    pub fn new(text: &str) -> (r: FilePath)
        ensures
            r.text@ == os_text::kept(text@),
            r@ == path_of(os_text::kept(text@)),
    {
        FilePath { text: os_text::keep(text) }
    }

    /// The path that a file system holds as `bytes`.
    pub fn from_bytes(bytes: &[u8]) -> (r: FilePath)
        ensures
            r.text@ == os_text::text_of(bytes@),
            os_text::bytes_of(r.text@) == bytes@,
    {
        proof {
            os_text::lemma_bytes_round_trip(bytes@);
        }
        FilePath { text: os_text::from_bytes(bytes) }
    }

    /// What a file system holds of the path.
    pub fn to_bytes(&self) -> (r: Vec<u8>)
        ensures
            r@ == os_text::bytes_of(self.text@),
    {
        os_text::to_bytes(self.text.as_str())
    }

    /// The path for people: what is no Unicode in it is replaced.
    pub fn shown(&self) -> (r: String)
        ensures
            r@ == os_text::shown_text(self.text@),
    {
        os_text::shown(self.text.as_str())
    }

    /// The path without any names.
    pub fn empty() -> (r: FilePath)
        ensures
            r.text@ == Seq::<char>::empty(),
            !r@.rooted,
            r@.names.len() == 0,
    {
        proof {
            lemma_empty_path(Seq::<char>::empty());
        }
        FilePath { text: String::new() }
    }

    /// Whether the text of the path is empty.
    pub fn is_empty(&self) -> (r: bool)
        ensures
            r == (self.text@.len() == 0),
            r == (!self@.rooted && self@.names.len() == 0),
    {
        proof {
            lemma_empty_path(self.text@);
        }
        self.text.as_str().is_empty()
    }

    /// Whether the path starts at the root.
    pub fn is_rooted(&self) -> (r: bool)
        ensures
            r == self@.rooted,
    {
        let text = self.text.as_str();
        !text.is_empty() && text.get_char(0) == '/'
    }

    /// The names of the path, in order.
    pub fn names(&self) -> (r: Vec<String>)
        ensures
            text::texts(r@) == self@.names,
    {
        let whole = self.text.as_str();
        let mut found: Vec<String> = Vec::new();
        let mut piece: String = String::new();
        let mut first = true;
        assert(text::texts(found@) =~= names_among(pieces(whole@.take(0)).drop_last())) by {
            assert(pieces(whole@.take(0)).drop_last() =~= Seq::<Seq<char>>::empty());
        }
        for c in it: whole.chars()
            invariant
                it.seq() == whole@,
                whole@ == self.text@,
                first == (pieces(whole@.take(it.index())).len() == 1),
                piece@ == pieces(whole@.take(it.index())).last(),
                text::texts(found@) == names_among(pieces(whole@.take(it.index())).drop_last()),
        {
            let ghost i = it.index();
            let ghost before = pieces(whole@.take(i));
            let ghost after = pieces(whole@.take(i + 1));
            proof {
                assert(whole@.take(i + 1).drop_last() =~= whole@.take(i));
                lemma_pieces_nonempty(whole@.take(i));
            }
            if c == '/' {
                assert(after.drop_last() =~= before);
                let kept = piece.as_str().unicode_len() > 0 && (first || !is_dot(&piece));
                if kept {
                    let ghost old_found = found@;
                    found.push(piece);
                    assert(text::texts(found@) =~= text::texts(old_found).push(before.last()));
                }
                piece = String::new();
                first = false;
            } else {
                assert(after.drop_last() =~= before.drop_last());
                piece.push(c);
            }
        }
        assert(whole@.take(whole@.len() as int) =~= whole@);
        let kept = piece.as_str().unicode_len() > 0 && (first || !is_dot(&piece));
        proof {
            lemma_pieces_nonempty(whole@);
        }
        if kept {
            let ghost old_found = found@;
            found.push(piece);
            assert(text::texts(found@) =~= text::texts(old_found).push(pieces(whole@).last()));
        }
        found
    }
}

/// Whether `name` is the single dot.
fn is_dot(name: &String) -> (r: bool)
    ensures
        r == (name@ == seq!['.']),
{
    let name = name.as_str();
    let r = name.unicode_len() == 1 && name.get_char(0) == '.';
    assert(r ==> name@ =~= seq!['.']);
    r
}

/// Whether `name` is the double dot.
fn is_double_dot(name: &String) -> (r: bool)
    ensures
        r == (name@ == seq!['.', '.']),
{
    let name = name.as_str();
    let r = name.unicode_len() == 2 && name.get_char(0) == '.' && name.get_char(1) == '.';
    assert(r ==> name@ =~= seq!['.', '.']);
    r
}

/// Whether two strings hold the same text.
pub fn same_text(a: &String, b: &String) -> (r: bool)
    ensures
        r == (a@ == b@),
{
    *a == *b
}

/// The text of the first `count` names, with the root in front where there is one.
fn render_names(rooted: bool, names: &Vec<String>, count: usize) -> (r: String)
    requires
        count <= names@.len(),
    ensures
        r@ == render(PathModel { rooted, names: text::texts(names@).take(count as int) }),
{
    let ghost all = text::texts(names@);
    let mut out: String = String::new();
    if rooted {
        out.push('/');
    }
    let ghost root = out@;
    assert(root == if rooted { seq!['/'] } else { Seq::<char>::empty() });
    assert(joined(all.take(0)) =~= Seq::<char>::empty());
    assert(root + joined(all.take(0)) =~= root);
    let mut i: usize = 0;
    while i < count
        invariant
            i <= count <= names@.len(),
            all == text::texts(names@),
            out@ == root + joined(all.take(i as int)),
        decreases count - i,
    {
        let ghost before = out@;
        if i > 0 {
            out.push('/');
        }
        out.append(names[i].as_str());
        proof {
            assert(all.take(i + 1).drop_last() =~= all.take(i as int));
            assert(all.take(i + 1).last() == names@[i as int]@);
            if i > 0 {
                assert(out@ =~= root + (joined(all.take(i as int)).push('/') + names@[i as int]@));
            } else {
                assert(all.take(1)[0] == names@[0]@);
                assert(out@ =~= root + names@[0]@);
            }
            assert(out@ =~= root + joined(all.take(i + 1)));
        }
        i = i + 1;
    }
    assert(!rooted ==> root + joined(all.take(count as int)) =~= joined(all.take(count as int)));
    out
}

/// Finds the dot in front of a file name's extension.
fn extension_dot(name: &str) -> (r: Option<usize>)
    ensures
        match r {
            Some(dot) => is_extension_dot(name@, dot as int),
            None => forall|dot: int| !is_extension_dot(name@, dot),
        },
{
    let mut i: usize = name.unicode_len();
    while i > 1
        invariant
            i <= name@.len(),
            forall|j: int| i <= j < name@.len() ==> name@[j] != '.',
        decreases i,
    {
        i = i - 1;
        if name.get_char(i) == '.' {
            return Some(i);
        }
    }
    None
}

impl FilePath {
    /// The shortest text of this path. Two paths are the same exactly when these
    /// texts are (`lemma_render_injective`).
    pub fn canonical(&self) -> (r: String)
        ensures
            r@ == render(self@),
    {
        let names = self.names();
        assert(text::texts(names@).take(names@.len() as int) =~= self@.names);
        render_names(self.is_rooted(), &names, names.len())
    }

    /// Whether two texts stand for the same path.
    pub fn same_path(&self, other: &FilePath) -> (r: bool)
        ensures
            r == (self@ == other@),
    {
        proof {
            lemma_path_of_wf(self.text@);
            lemma_path_of_wf(other.text@);
            if render(self@) == render(other@) {
                lemma_render_injective(self@, other@);
            }
        }
        same_text(&self.canonical(), &other.canonical())
    }

    /// The last name, or `None` where the path ends in `.` or `..` or has no name.
    pub fn file_name(&self) -> (r: Option<String>)
        ensures
            match r {
                Some(name) => last_name(self@) == Some(name@),
                None => last_name(self@) is None,
            },
    {
        let mut names = self.names();
        match names.pop() {
            None => None,
            Some(name) => if is_dot(&name) || is_double_dot(&name) {
                None
            } else {
                Some(name)
            },
        }
    }

    /// The path without its last name, in its shortest text, or `None` where it has no name.
    pub fn parent(&self) -> (r: Option<FilePath>)
        ensures
            match r {
                Some(parent) => parent_of(self@) == Some(parent@) && parent.text@ == render(
                    parent@,
                ),
                None => parent_of(self@) is None,
            },
    {
        let names = self.names();
        if names.len() == 0 {
            return None;
        }
        let rooted = self.is_rooted();
        let count: usize = names.len() - 1;
        let parent = FilePath { text: render_names(rooted, &names, count) };
        proof {
            let model = PathModel { rooted, names: self@.names.drop_last() };
            assert(text::texts(names@).take(count as int) =~= self@.names.drop_last());
            lemma_path_of_wf(self.text@);
            assert(model_wf(model)) by {
                assert forall|i: int| #![trigger model.names[i]] 0 <= i < model.names.len() implies name_wf(
                    model.names[i],
                ) && (model.names[i] == seq!['.'] ==> i == 0 && !model.rooted) by {
                    assert(model.names[i] == self@.names[i]);
                }
            }
            lemma_render_round_trip(model);
        }
        Some(parent)
    }

    /// The extension of the last name, without its dot.
    pub fn extension(&self) -> (r: Option<String>)
        ensures
            match r {
                Some(ext) => extension_of(self@) == Some(ext@),
                None => extension_of(self@) is None,
            },
    {
        match self.file_name() {
            None => None,
            Some(name) => match extension_dot(name.as_str()) {
                None => None,
                Some(dot) => {
                    let whole = name.as_str();
                    let length: usize = whole.unicode_len();
                    let ext = whole.substring_char(dot + 1, length).to_owned();
                    proof {
                        assert(is_extension_dot(name@, dot as int));
                        assert(is_extension_dot(name@, extension_dot_of(name@)));
                        assert(extension_dot_of(name@) == dot);
                        assert(ext@ =~= name@.skip(dot + 1));
                        assert(last_name(self@)->0 == name@);
                    }
                    Some(ext)
                },
            },
        }
    }

    /// The characters of the extension, where there is one and it is Unicode.
    pub fn unicode_extension(&self) -> (r: Option<String>)
        ensures
            match r {
                Some(ext) => unicode_extension_of(self@) == Some(ext@),
                None => unicode_extension_of(self@) is None,
            },
    {
        match self.extension() {
            Some(ext) => os_text::to_unicode(ext.as_str()),
            None => None,
        }
    }

    /// `other`, taken from this path on.
    pub fn join(&self, other: &FilePath) -> (r: FilePath)
        ensures
            r.text@ == join_text(self.text@, other.text@),
            r@ == join_model(self@, other@),
    {
        proof {
            lemma_join(self.text@, other.text@);
        }
        if other.is_rooted() {
            return other.clone();
        }
        let mut out = self.text.clone();
        let length: usize = out.as_str().unicode_len();
        if length > 0 && out.as_str().get_char(length - 1) != '/' {
            out.push('/');
        }
        out.append(other.text.as_str());
        FilePath { text: out }
    }
}

/// What is left of `path` behind `base`, where `path` starts with `base`.
pub open spec fn stripped(path: PathModel, base: PathModel) -> Option<PathModel> {
    let count = base.names.len() as int;
    if !base.rooted && count == 0 {
        Some(path)
    } else if base.rooted == path.rooted && count <= path.names.len() && path.names.take(count)
        == base.names {
        Some(PathModel { rooted: false, names: path.names.skip(count) })
    } else {
        None
    }
}

/// The text of what is left of `path` behind `base`, or of the whole path where it does not
/// start with `base`.
pub open spec fn relative_text(path: FilePath, base: FilePath) -> Seq<char> {
    match stripped(path@, base@) {
        Some(rest) => if base.text@.len() == 0 {
            path.text@
        } else {
            render(rest)
        },
        None => path.text@,
    }
}

/// Two paths below `base` that are left with the same text are the same path.
pub proof fn lemma_stripped_injective(a: FilePath, b: FilePath, base: FilePath)
    requires
        base.text@.len() > 0,
        stripped(a@, base@) is Some,
        stripped(b@, base@) is Some,
        relative_text(a, base) == relative_text(b, base),
    ensures
        a@ == b@,
{
    lemma_empty_path(base.text@);
    lemma_path_of_wf(a.text@);
    lemma_path_of_wf(b.text@);
    let n = base@.names.len() as int;
    let x = stripped(a@, base@)->0;
    let y = stripped(b@, base@)->0;
    assert forall|i: int| #![trigger x.names[i]] 0 <= i < x.names.len() implies name_wf(x.names[i])
        && (x.names[i] == seq!['.'] ==> i == 0 && !x.rooted) by {
        assert(x.names[i] == a@.names[i + n]);
    }
    assert forall|i: int| #![trigger y.names[i]] 0 <= i < y.names.len() implies name_wf(y.names[i])
        && (y.names[i] == seq!['.'] ==> i == 0 && !y.rooted) by {
        assert(y.names[i] == b@.names[i + n]);
    }
    lemma_render_injective(x, y);
    assert(a@.names =~= a@.names.take(n) + a@.names.skip(n));
    assert(b@.names =~= b@.names.take(n) + b@.names.skip(n));
    assert(a@ =~= b@);
}

/// Whether `list` starts with the texts of `prefix`.
fn starts_with(list: &Vec<String>, prefix: &Vec<String>) -> (r: bool)
    ensures
        r == (prefix@.len() <= list@.len() && text::texts(list@).take(prefix@.len() as int)
            == text::texts(prefix@)),
{
    if prefix.len() > list.len() {
        return false;
    }
    let mut i: usize = 0;
    while i < prefix.len()
        invariant
            i <= prefix@.len() <= list@.len(),
            forall|j: int| 0 <= j < i ==> list@[j]@ == #[trigger] prefix@[j]@,
        decreases prefix@.len() - i,
    {
        if !same_text(&list[i], &prefix[i]) {
            assert(text::texts(list@).take(prefix@.len() as int)[i as int] != text::texts(
                prefix@,
            )[i as int]);
            return false;
        }
        i = i + 1;
    }
    assert(text::texts(list@).take(prefix@.len() as int) =~= text::texts(prefix@));
    true
}

impl FilePath {
    /// What is left of this path behind `base`, or `None` where it does not start
    /// with `base`.
    pub fn strip_prefix(&self, base: &FilePath) -> (r: Option<FilePath>)
        ensures
            match r {
                Some(rest) => stripped(self@, base@) == Some(rest@) && rest.text@ == relative_text(
                    *self,
                    *base,
                ),
                None => stripped(self@, base@) is None,
            },
    {
        if base.is_empty() {
            return Some(self.clone());
        }
        let mut names = self.names();
        let prefix = base.names();
        if self.is_rooted() != base.is_rooted() || !starts_with(&names, &prefix) {
            return None;
        }
        let ghost all = names@;
        let count: usize = prefix.len();
        let rest = names.split_off(count);
        let out = FilePath { text: render_names(false, &rest, rest.len()) };
        proof {
            let model = PathModel { rooted: false, names: self@.names.skip(count as int) };
            assert(text::texts(rest@).take(rest@.len() as int) =~= model.names);
            lemma_path_of_wf(self.text@);
            assert forall|i: int| #![trigger model.names[i]] 0 <= i < model.names.len() implies name_wf(
                model.names[i],
            ) && (model.names[i] == seq!['.'] ==> i == 0 && !model.rooted) by {
                assert(model.names[i] == self@.names[i + count]);
            }
            lemma_render_round_trip(model);
        }
        Some(out)
    }

    /// What is left of this path behind `base`, or the whole path where it does not
    /// start with `base`.
    pub fn relative_to(&self, base: &FilePath) -> (r: FilePath)
        ensures
            match stripped(self@, base@) {
                Some(rest) => r@ == rest,
                None => r == *self,
            },
            r.text@ == relative_text(*self, *base),
    {
        match self.strip_prefix(base) {
            Some(rest) => rest,
            None => self.clone(),
        }
    }
}

proof fn lemma_pieces_hold_characters_of(text: Seq<char>, i: int, j: int)
    requires
        0 <= i < pieces(text).len(),
        0 <= j < pieces(text)[i].len(),
    ensures
        text.contains(pieces(text)[i][j]),
    decreases text.len(),
{
    if text.len() > 0 {
        let front = text.drop_last();
        let before = pieces(front);
        let c = pieces(text)[i][j];
        lemma_pieces_nonempty(front);
        if i < before.len() && j < before[i].len() {
            assert(before[i][j] == c);
            lemma_pieces_hold_characters_of(front, i, j);
            let k = choose|k: int| 0 <= k < front.len() && front[k] == c;
            assert(text[k] == c);
        } else {
            assert(text[text.len() - 1] == c);
        }
    }
}

/// Every character of a name is one of the path's text.
proof fn lemma_names_hold_characters_of(text: Seq<char>, i: int)
    requires
        0 <= i < path_of(text).names.len(),
    ensures
        forall|j: int|
            0 <= j < path_of(text).names[i].len() ==> text.contains(
                #[trigger] path_of(text).names[i][j],
            ),
{
    lemma_names_among(pieces(text));
    let name = path_of(text).names[i];
    assert(pieces(text).contains(name));
    let k = choose|k: int| 0 <= k < pieces(text).len() && pieces(text)[k] == name;
    assert forall|j: int| 0 <= j < name.len() implies text.contains(#[trigger] name[j]) by {
        lemma_pieces_hold_characters_of(text, k, j);
    }
}

/// The NFC form of a text (Unicode normalization form C).
pub uninterp spec fn nfc(text: Seq<char>) -> Seq<char>;

/// `UnicodeNormalization::nfc` of the crate `unicode_normalization`, collected
/// into a string: what it gives is named `nfc`, and a text of ASCII characters stays
/// as it is. That canonically equivalent texts get one form is left unsaid: it would
/// take Unicode's tables to state.
#[verifier::external_body]
fn to_nfc(text: &str) -> (r: String)
    ensures
        r@ == nfc(text@),
        is_ascii(text) ==> r@ == text@,
{
    unicode_normalization::UnicodeNormalization::nfc(text).collect()
}

/// A name in NFC form. One that is no Unicode has none and stays as it is.
pub open spec fn normalized_name(name: Seq<char>) -> Seq<char> {
    match os_text::unicode_of(name) {
        Some(chars) => os_text::kept(nfc(chars)),
        None => name,
    }
}

/// The path with every name in NFC form.
pub open spec fn normalized(path: PathModel) -> PathModel {
    PathModel {
        rooted: path.rooted,
        names: path.names.map_values(|name: Seq<char>| normalized_name(name)),
    }
}

/// The NFC form of a name.
fn normalize_name(name: &str) -> (r: String)
    ensures
        r@ == normalized_name(name@),
        vstd::utf8::is_ascii_chars(name@) ==> r@ == name@,
{
    proof {
        if vstd::utf8::is_ascii_chars(name@) {
            assert(os_text::is_plain(name@));
        }
    }
    match os_text::to_unicode(name) {
        Some(chars) => {
            let normal = to_nfc(chars.as_str());
            os_text::keep(normal.as_str())
        },
        None => name.to_owned(),
    }
}

/// NFC-normalizes every name of `path`, for comparison only: one file system keeps
/// a name in decomposed form where another keeps it composed, and both stand for
/// the same file. A name that is no Unicode stays as it is. The result is never handed to a
/// file system.
pub fn normalize_for_comparison(path: &FilePath) -> (r: FilePath)
    ensures
        r.text@ == render(normalized(path@)),
        vstd::utf8::is_ascii_chars(path.text@) ==> r@ == path@,
{
    let names = path.names();
    let mut normal: Vec<String> = Vec::new();
    let mut i: usize = 0;
    while i < names.len()
        invariant
            i <= names@.len(),
            normal@.len() == i,
            text::texts(names@) == path@.names,
            forall|j: int| 0 <= j < i ==> #[trigger] normal@[j]@ == normalized_name(names@[j]@),
            vstd::utf8::is_ascii_chars(path.text@) ==> forall|j: int|
                0 <= j < i ==> #[trigger] normal@[j]@ == names@[j]@,
        decreases names@.len() - i,
    {
        proof {
            assert(path@.names[i as int] == names@[i as int]@);
            lemma_names_hold_characters_of(path.text@, i as int);
        }
        normal.push(normalize_name(names[i].as_str()));
        i = i + 1;
    }
    assert(text::texts(normal@).take(normal@.len() as int) =~= normalized(path@).names);
    proof {
        if vstd::utf8::is_ascii_chars(path.text@) {
            assert(text::texts(normal@) =~= path@.names);
            assert(normalized(path@) =~= path@);
            lemma_path_of_wf(path.text@);
            lemma_render_round_trip(path@);
        }
    }
    FilePath { text: render_names(path.is_rooted(), &normal, normal.len()) }
}

/// The extension is what stands behind the last dot of a name, unless that is the first
/// character: it holds no dot itself, and a name that is something, a dot and a text without
/// dots has that text for its extension.
pub proof fn lemma_extension_stands_behind_the_last_dot(
    model: PathModel,
    stem: Seq<char>,
    extension: Seq<char>,
)
    ensures
        extension_of(model) matches Some(e) ==> last_name(model) is Some && !e.contains('.'),
        extension_of(model) == Some(extension) ==> last_name(model)->0.len() > extension.len() + 1,
        last_name(model) == Some(stem.push('.') + extension) && stem.len() > 0
            && !extension.contains('.') ==> extension_of(model) == Some(extension),
        last_name(model) is Some && !last_name(model)->0.skip(1).contains('.') ==> extension_of(
            model,
        ) is None,
{
    if last_name(model) is Some {
        let name = last_name(model)->0;
        if extension_of(model) is Some {
            let dot = extension_dot_of(name);
            assert(is_extension_dot(name, dot));
            let e = name.skip(dot + 1);
            assert forall|j: int| 0 <= j < e.len() implies e[j] != '.' by {
                assert(e[j] == name[dot + 1 + j]);
            }
            assert(name.skip(1)[dot - 1] == '.');
        }
        if name == stem.push('.') + extension && stem.len() > 0 && !extension.contains('.') {
            let n = stem.len() as int;
            assert forall|j: int| n < j < name.len() implies name[j] != '.' by {
                assert(name[j] == extension[j - n - 1]);
                assert(extension.contains(extension[j - n - 1]));
            }
            assert(is_extension_dot(name, n));
            let dot = extension_dot_of(name);
            assert(is_extension_dot(name, dot));
            assert(dot == n);
            assert(name.skip(n + 1) =~= extension);
        }
    }
}

/// A name joined to a path is the last name of what comes out, and the path is its parent.
pub proof fn lemma_joined_name_is_the_last(base: PathModel, name: Seq<char>)
    requires
        name != seq!['.'],
        name != seq!['.', '.'],
    ensures
        ({
            let whole = join_model(base, PathModel { rooted: false, names: seq![name] });
            &&& last_name(whole) == Some(name)
            &&& parent_of(whole) == Some(base)
            &&& whole.rooted == base.rooted
            &&& whole.names.len() == base.names.len() + 1
        }),
{
    let one = PathModel { rooted: false, names: seq![name] };
    let whole = join_model(base, one);
    assert(one.names[0] == name);
    assert(inner_names(one.names) =~= seq![name]);
    assert(whole.names.last() == name);
    assert(whole.names.drop_last() =~= base.names);
    assert(parent_of(whole)->0 =~= base);
}

/// A path below `base` is `base` with the rest joined to it, and nothing else is below `base`:
/// what is left of a join is what was joined.
pub proof fn lemma_stripping_undoes_joining(path: FilePath, base: FilePath, rest: FilePath)
    requires
        base.text@.len() > 0,
    ensures
        stripped(path@, base@) matches Some(left) ==> join_model(base@, left) == path@,
        !rest@.rooted ==> stripped(join_model(base@, rest@), base@) == Some(
            PathModel { rooted: false, names: inner_names(rest@.names) },
        ),
        path@ == base@ ==> stripped(path@, base@) == Some(
            PathModel { rooted: false, names: Seq::empty() },
        ),
        path@.rooted != base@.rooted ==> stripped(path@, base@) is None,
        path@.names.len() < base@.names.len() ==> stripped(path@, base@) is None,
{
    lemma_empty_path(base.text@);
    lemma_path_of_wf(path.text@);
    let count = base@.names.len() as int;
    if stripped(path@, base@) is Some {
        let left = stripped(path@, base@)->0;
        if left.names.len() > 0 {
            assert(left.names[0] == path@.names[count]);
        }
        assert(inner_names(left.names) =~= left.names);
        assert(path@.names =~= base@.names + left.names);
        assert(join_model(base@, left) =~= path@);
    }
    if !rest@.rooted {
        let whole = join_model(base@, rest@);
        assert(whole.names.take(count) =~= base@.names);
        assert(whole.names.skip(count) =~= inner_names(rest@.names));
    }
    if path@ == base@ {
        assert(path@.names.take(count) =~= base@.names);
        assert(path@.names.skip(count) =~= Seq::<Seq<char>>::empty());
    }
}

/// A parent is its path without the last name, and only a path without names has none.
pub proof fn lemma_parent_lacks_the_last_name(model: PathModel)
    ensures
        parent_of(model) is None <==> model.names.len() == 0,
        parent_of(model) matches Some(parent) ==> parent.rooted == model.rooted && model.names
            == parent.names.push(model.names.last()),
        last_name(model) matches Some(name) ==> parent_of(model) is Some && name
            == model.names.last(),
{
    if model.names.len() > 0 {
        assert(model.names.drop_last().push(model.names.last()) =~= model.names);
    }
}

} // verus!
