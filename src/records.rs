//! Posts, and the encoding of a collection of them for storage: the three
//! sensitive fields of each post are encrypted one by one, the rest pass
//! through unchanged.
use vstd::prelude::*;
use crate::cipher::{
    decrypt_data, decrypt_result, encrypt_data, is_sealed_field, lemma_field_round_trip,
    password_fits, text_fits, FieldError,
};

verus! {

/// A post. In memory its `user`, `content` and `media` are plain text; in
/// stored form they are encrypted fields. `iv` and `media_iv` are opaque
/// tags of the client's that are carried through unchanged.
#[derive(Clone, Debug)]
pub struct Post {
    pub id: usize,
    pub user: String,
    pub content: String,
    pub media: Option<String>,
    pub iv: String,
    pub media_iv: Option<String>,
}

/// A post as values.
pub struct PostView {
    pub id: usize,
    pub user: Seq<char>,
    pub content: Seq<char>,
    pub media: Option<Seq<char>>,
    pub iv: Seq<char>,
    pub media_iv: Option<Seq<char>>,
}

/// An optional text as values.
pub open spec fn opt_text(o: Option<String>) -> Option<Seq<char>> {
    match o {
        Some(s) => Some(s@),
        None => None,
    }
}

impl View for Post {
    type V = PostView;

    open spec fn view(&self) -> PostView {
        PostView {
            id: self.id,
            user: self.user@,
            content: self.content@,
            media: opt_text(self.media),
            iv: self.iv@,
            media_iv: opt_text(self.media_iv),
        }
    }
}

fn copy_opt_text(o: &Option<String>) -> (r: Option<String>)
    ensures
        opt_text(r) == opt_text(*o),
{
    match o {
        Some(s) => Some(s.clone()),
        None => None,
    }
}

impl Post {
    /// A copy of the post, field by field.
    pub fn duplicate(&self) -> (r: Post)
        ensures
            r@ == self@,
    {
        Post {
            id: self.id,
            user: self.user.clone(),
            content: self.content.clone(),
            media: copy_opt_text(&self.media),
            iv: self.iv.clone(),
            media_iv: copy_opt_text(&self.media_iv),
        }
    }
}

/// The posts of a sequence, as values.
pub open spec fn posts_view(s: Seq<Post>) -> Seq<PostView> {
    s.map_values(|p: Post| p@)
}

/// The sensitive fields of a post are all within what the cipher accepts.
pub open spec fn post_fits(p: PostView) -> bool {
    &&& text_fits(p.user)
    &&& text_fits(p.content)
    &&& p.media matches Some(m) ==> text_fits(m)
}

/// `enc` is the stored form of `plain` under `password`: the same id and
/// tags, and each sensitive field an encryption of the plain one.
pub open spec fn post_sealed(enc: PostView, password: Seq<char>, plain: PostView) -> bool {
    &&& enc.id == plain.id
    &&& enc.iv == plain.iv
    &&& enc.media_iv == plain.media_iv
    &&& is_sealed_field(enc.user, password, plain.user)
    &&& is_sealed_field(enc.content, password, plain.content)
    &&& match (enc.media, plain.media) {
        (Some(e), Some(m)) => is_sealed_field(e, password, m),
        (None, None) => true,
        _ => false,
    }
}

/// `enc` is the stored form of `plain`, post by post, in the same order.
pub open spec fn posts_sealed(enc: Seq<PostView>, password: Seq<char>, plain: Seq<PostView>) -> bool {
    &&& enc.len() == plain.len()
    &&& forall|i: int| 0 <= i < plain.len() ==> post_sealed(enc[i], password, plain[i])
}

/// What decrypting the stored form of one post gives: the first failure
/// among `user`, `content` and `media`, in that order, or the plain post.
pub open spec fn decrypt_post_result(p: PostView, password: Seq<char>) -> Result<
    PostView,
    FieldError,
> {
    match decrypt_result(p.user, password) {
        Err(e) => Err(e),
        Ok(user) => match decrypt_result(p.content, password) {
            Err(e) => Err(e),
            Ok(content) => match p.media {
                None => Ok(PostView { user, content, ..p }),
                Some(m) => match decrypt_result(m, password) {
                    Err(e) => Err(e),
                    Ok(media) => Ok(PostView { user, content, media: Some(media), ..p }),
                },
            },
        },
    }
}

/// What decrypting stored posts gives: the first failure, post by post, or
/// all the plain posts in order.
pub open spec fn decrypt_posts_result(s: Seq<PostView>, password: Seq<char>) -> Result<
    Seq<PostView>,
    FieldError,
>
    decreases s.len(),
{
    if s.len() == 0 {
        Ok(Seq::empty())
    } else {
        match decrypt_posts_result(s.drop_last(), password) {
            Err(e) => Err(e),
            Ok(done) => match decrypt_post_result(s.last(), password) {
                Err(e) => Err(e),
                Ok(p) => Ok(done.push(p)),
            },
        }
    }
}

/// What loading gives: nothing stored is an empty collection.
pub open spec fn load_result(stored: Option<Seq<PostView>>, password: Seq<char>) -> Result<
    Seq<PostView>,
    FieldError,
> {
    match stored {
        None => Ok(Seq::empty()),
        Some(s) => decrypt_posts_result(s, password),
    }
}

/// Stored posts as values, where there are any.
pub open spec fn stored_view(stored: Option<Vec<Post>>) -> Option<Seq<PostView>> {
    match stored {
        Some(v) => Some(posts_view(v@)),
        None => None,
    }
}

/// An outcome with its posts as values.
pub open spec fn post_result(r: Result<Post, FieldError>) -> Result<PostView, FieldError> {
    match r {
        Ok(p) => Ok(p@),
        Err(e) => Err(e),
    }
}

/// An outcome with its posts as values.
pub open spec fn posts_result(r: Result<Vec<Post>, FieldError>) -> Result<
    Seq<PostView>,
    FieldError,
> {
    match r {
        Ok(v) => Ok(posts_view(v@)),
        Err(e) => Err(e),
    }
}

fn encrypt_opt_text(o: &Option<String>, password: &str) -> (r: Result<Option<String>, FieldError>)
    requires
        password_fits(password@),
    ensures
        r is Ok ==> (o matches Some(m) ==> text_fits(m@)),
        r != Err::<Option<String>, FieldError>(FieldError::RandomnessUnavailable) ==> (r is Ok <==> (o matches Some(
            m,
        ) ==> text_fits(m@))),
        r matches Ok(e) ==> match (opt_text(e), opt_text(*o)) {
            (Some(e), Some(m)) => is_sealed_field(e, password@, m),
            (None, None) => true,
            _ => false,
        },
        r matches Err(e) ==> e == FieldError::PlaintextTooLong || e
            == FieldError::RandomnessUnavailable,
{
    match o {
        None => Ok(None),
        Some(m) => match encrypt_data(m.as_str(), password) {
            Ok(e) => Ok(Some(e)),
            Err(e) => Err(e),
        },
    }
}

/// The stored form of one post: `user`, `content` and `media` each
/// encrypted with a salt and nonce of their own.
pub fn encrypt_post(post: &Post, password: &str) -> (r: Result<Post, FieldError>)
    requires
        password_fits(password@),
    ensures
        r is Ok ==> post_fits(post@),
        r != Err::<Post, FieldError>(FieldError::RandomnessUnavailable) ==> (r is Ok <==> post_fits(post@)),
        r matches Ok(e) ==> post_sealed(e@, password@, post@),
        r matches Err(e) ==> e == FieldError::PlaintextTooLong || e
            == FieldError::RandomnessUnavailable,
{
    let user = match encrypt_data(post.user.as_str(), password) {
        Ok(u) => u,
        Err(e) => return Err(e),
    };
    let content = match encrypt_data(post.content.as_str(), password) {
        Ok(c) => c,
        Err(e) => return Err(e),
    };
    let media = match encrypt_opt_text(&post.media, password) {
        Ok(m) => m,
        Err(e) => return Err(e),
    };
    Ok(
        Post {
            id: post.id,
            user,
            content,
            media,
            iv: post.iv.clone(),
            media_iv: copy_opt_text(&post.media_iv),
        },
    )
}

/// The stored form of a collection of posts, in the same order.
pub fn encode_posts(posts: &Vec<Post>, password: &str) -> (r: Result<Vec<Post>, FieldError>)
    requires
        password_fits(password@),
    ensures
        r is Ok ==> forall|i: int| 0 <= i < posts@.len() ==> post_fits(#[trigger] posts@[i]@),
        r != Err::<Vec<Post>, FieldError>(FieldError::RandomnessUnavailable) ==> (r is Ok <==> forall|i: int|
            0 <= i < posts@.len() ==> post_fits(#[trigger] posts@[i]@)),
        r matches Ok(e) ==> posts_sealed(posts_view(e@), password@, posts_view(posts@)),
        r matches Err(e) ==> e == FieldError::PlaintextTooLong || e
            == FieldError::RandomnessUnavailable,
{
    let mut out: Vec<Post> = Vec::new();
    let mut i: usize = 0;
    while i < posts.len()
        invariant
            i <= posts@.len(),
            password_fits(password@),
            out@.len() == i,
            forall|j: int| 0 <= j < i ==> post_fits(#[trigger] posts@[j]@),
            forall|j: int| 0 <= j < i ==> post_sealed(#[trigger] out@[j]@, password@, posts@[j]@),
        decreases posts@.len() - i,
    {
        match encrypt_post(&posts[i], password) {
            Ok(e) => out.push(e),
            Err(e) => return Err(e),
        }
        i = i + 1;
    }
    Ok(out)
}

fn decrypt_opt_text(o: &Option<String>, password: &str) -> (r: Result<Option<String>, FieldError>)
    requires
        password_fits(password@),
    ensures
        match opt_text(*o) {
            None => (r matches Ok(n) && n is None),
            Some(m) => match decrypt_result(m, password@) {
                Err(e) => r == Err::<Option<String>, FieldError>(e),
                Ok(t) => (r matches Ok(d) && opt_text(d) == Some(t)),
            },
        },
{
    match o {
        None => Ok(None),
        Some(m) => match decrypt_data(m.as_str(), password) {
            Ok(d) => Ok(Some(d)),
            Err(e) => Err(e),
        },
    }
}

/// The plain form of one stored post.
pub fn decrypt_post(post: &Post, password: &str) -> (r: Result<Post, FieldError>)
    requires
        password_fits(password@),
    ensures
        post_result(r) == decrypt_post_result(post@, password@),
{
    let user = match decrypt_data(post.user.as_str(), password) {
        Ok(u) => u,
        Err(e) => return Err(e),
    };
    let content = match decrypt_data(post.content.as_str(), password) {
        Ok(c) => c,
        Err(e) => return Err(e),
    };
    let media = match decrypt_opt_text(&post.media, password) {
        Ok(m) => m,
        Err(e) => return Err(e),
    };
    let r = Post {
        id: post.id,
        user,
        content,
        media,
        iv: post.iv.clone(),
        media_iv: copy_opt_text(&post.media_iv),
    };
    Ok(r)
}

/// A failure in the first `k` stored posts is the failure of them all.
proof fn lemma_failure_in_prefix(s: Seq<PostView>, password: Seq<char>, k: int)
    requires
        0 <= k <= s.len(),
        decrypt_posts_result(s.take(k), password) is Err,
    ensures
        decrypt_posts_result(s, password) == decrypt_posts_result(s.take(k), password),
    decreases s.len() - k,
{
    if k < s.len() {
        assert(s.take(k + 1).drop_last() =~= s.take(k));
        lemma_failure_in_prefix(s, password, k + 1);
    } else {
        assert(s.take(k) =~= s);
    }
}

/// Loads a collection from its stored form. Nothing stored yet gives an
/// empty collection; otherwise every field is decrypted and the first
/// failure, post by post, ends the load.
pub fn decode_posts(stored: Option<Vec<Post>>, password: &str) -> (r: Result<Vec<Post>, FieldError>)
    requires
        stored is Some ==> password_fits(password@),
    ensures
        posts_result(r) == load_result(stored_view(stored), password@),
        stored is None ==> (r matches Ok(v) && v@.len() == 0),
{
    let items = match stored {
        None => {
            let empty: Vec<Post> = Vec::new();
            assert(posts_view(empty@) =~= Seq::<PostView>::empty());
            return Ok(empty);
        },
        Some(v) => v,
    };
    let ghost s = posts_view(items@);
    let mut out: Vec<Post> = Vec::new();
    let mut i: usize = 0;
    assert(s.take(0) =~= Seq::<PostView>::empty());
    assert(posts_view(out@) =~= Seq::<PostView>::empty());
    while i < items.len()
        invariant
            i <= items@.len(),
            s == posts_view(items@),
            stored == Some(items),
            password_fits(password@),
            decrypt_posts_result(s.take(i as int), password@) == Ok::<Seq<PostView>, FieldError>(
                posts_view(out@),
            ),
        decreases items@.len() - i,
    {
        proof {
            assert(s.take(i + 1).drop_last() =~= s.take(i as int));
            assert(s.take(i + 1).last() == items@[i as int]@);
        }
        match decrypt_post(&items[i], password) {
            Ok(p) => {
                let ghost prev = out@;
                out.push(p);
                assert(posts_view(out@) =~= posts_view(prev).push(out@.last()@));
            },
            Err(e) => {
                proof {
                    lemma_failure_in_prefix(s, password@, i + 1);
                }
                return Err(e);
            },
        }
        i = i + 1;
    }
    assert(s.take(items@.len() as int) =~= s);
    Ok(out)
}

/// Decrypting the stored form of a post under the password it was
/// encrypted with gives back the post.
pub proof fn lemma_post_round_trip(enc: PostView, password: Seq<char>, plain: PostView)
    requires
        post_sealed(enc, password, plain),
    ensures
        decrypt_post_result(enc, password) == Ok::<PostView, FieldError>(plain),
{
    lemma_field_round_trip(enc.user, password, plain.user);
    lemma_field_round_trip(enc.content, password, plain.content);
    if let Some(m) = plain.media {
        lemma_field_round_trip(enc.media->Some_0, password, m);
    }
}

/// Decoding the stored form of any sequence of posts under the password it
/// was encoded with gives back the same posts, in the same order: ids,
/// texts, attachments and both tags.
pub proof fn lemma_persistence_round_trip(
    plain: Seq<PostView>,
    password: Seq<char>,
    enc: Seq<PostView>,
)
    requires
        posts_sealed(enc, password, plain),
    ensures
        decrypt_posts_result(enc, password) == Ok::<Seq<PostView>, FieldError>(plain),
    decreases plain.len(),
{
    if plain.len() > 0 {
        let n = plain.len() - 1;
        lemma_persistence_round_trip(plain.drop_last(), password, enc.drop_last());
        lemma_post_round_trip(enc[n], password, plain[n]);
        assert(plain.drop_last().push(plain[n]) =~= plain);
    } else {
        assert(plain =~= Seq::<PostView>::empty());
    }
}

/// Loading when nothing has been stored yet gives an empty collection.
pub proof fn lemma_missing_storage_is_empty(password: Seq<char>)
    ensures
        load_result(None, password) == Ok::<Seq<PostView>, FieldError>(Seq::empty()),
{
}

} // verus!
