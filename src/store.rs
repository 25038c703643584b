//! The in-memory collection of plain posts, with sequential ids, and the
//! password that its stored form is encrypted under.
use vstd::prelude::*;
use vstd::string::*;
use crate::cipher::{password_fits, FieldError};
use crate::records::{
    encode_posts, encrypt_post, post_fits, posts_sealed, posts_view, Post, PostView,
};

verus! {

/// The most characters an author's name may have.
pub const MAX_AUTHOR_CHARS: usize = 20;

/// The password that every field is encrypted under.
pub struct AppState {
    pub password: String,
}

impl AppState {
    pub fn new(password: &str) -> (r: AppState)
        ensures
            r.password@ == password@,
    {
        AppState { password: password.to_owned() }
    }
}

/// A post as a client proposes it, before it has an id.
#[derive(Clone, Debug)]
pub struct NewPost {
    pub user: String,
    pub content: String,
    pub media: Option<String>,
    pub iv: String,
    pub media_iv: Option<String>,
}

/// Why a post was not created.
#[derive(Debug, Clone, Copy, PartialEq, Eq, Structural)]
pub enum PostError {
    /// The author's name has more than `MAX_AUTHOR_CHARS` characters.
    AuthorTooLong,
    /// A field of the collection could not be encrypted for storage.
    Encryption(FieldError),
}

/// The collection of plain posts, in the order they were created.
pub struct PostStore {
    posts: Vec<Post>,
}

impl View for PostStore {
    type V = Seq<PostView>;

    closed spec fn view(&self) -> Seq<PostView> {
        posts_view(self.posts@)
    }
}

/// Each post's id is its place in the collection, counted from one.
pub open spec fn ids_sequential(s: Seq<PostView>) -> bool {
    forall|i: int| 0 <= i < s.len() ==> #[trigger] s[i].id == i + 1
}

/// The post that a proposal becomes with a given id.
pub open spec fn post_from(n: NewPost, id: usize) -> PostView {
    PostView {
        id,
        user: n.user@,
        content: n.content@,
        media: crate::records::opt_text(n.media),
        iv: n.iv@,
        media_iv: crate::records::opt_text(n.media_iv),
    }
}

impl PostStore {
    /// An empty collection.
    pub fn new() -> (r: PostStore)
        ensures
            r@ == Seq::<PostView>::empty(),
    {
        let r = PostStore { posts: Vec::new() };
        assert(r@ =~= Seq::<PostView>::empty());
        r
    }

    /// A collection that holds the given posts, in order.
    pub fn from_posts(posts: Vec<Post>) -> (r: PostStore)
        ensures
            r@ == posts_view(posts@),
    {
        PostStore { posts }
    }

    /// How many posts the collection holds.
    pub fn len(&self) -> (r: usize)
        ensures
            r == self@.len(),
    {
        self.posts.len()
    }
}

/// A copy of every post in the collection, in order.
pub fn get_posts(posts: &PostStore) -> (r: Vec<Post>)
    ensures
        posts_view(r@) == posts@,
{
    let mut out: Vec<Post> = Vec::new();
    let mut i: usize = 0;
    while i < posts.posts.len()
        invariant
            i <= posts.posts@.len(),
            posts_view(out@) == posts_view(posts.posts@.take(i as int)),
        decreases posts.posts@.len() - i,
    {
        let ghost prev = out@;
        out.push(posts.posts[i].duplicate());
        assert(posts.posts@.take(i + 1) =~= posts.posts@.take(i as int).push(posts.posts@[i as int]));
        assert(posts_view(out@) =~= posts_view(prev).push(posts.posts@[i as int]@));
        assert(posts_view(posts.posts@.take(i + 1)) =~= posts_view(posts.posts@.take(i as int)).push(
            posts.posts@[i as int]@,
        ));
        i = i + 1;
    }
    assert(posts.posts@.take(posts.posts@.len() as int) =~= posts.posts@);
    out
}

/// Creates a post from a proposal: checks the author's name, gives it the
/// next id, and gives back with it the stored form of the whole collection,
/// which is to be written out.
///
/// The collection is changed only where the post is created: a name that is
/// too long, or a field beyond what the cipher accepts, leaves it as it was.
pub fn create_post(new_post: NewPost, posts: &mut PostStore, app_state: &AppState) -> (r: Result<
    (Post, Vec<Post>),
    PostError,
>)
    requires
        old(posts)@.len() < usize::MAX,
        password_fits(app_state.password@),
    ensures
        (r == Err::<(Post, Vec<Post>), PostError>(PostError::AuthorTooLong)) <==> new_post.user@.len()
            > MAX_AUTHOR_CHARS,
        r is Ok ==> new_post.user@.len() <= MAX_AUTHOR_CHARS && post_fits(
            post_from(new_post, (old(posts)@.len() + 1) as usize),
        ) && forall|i: int| 0 <= i < old(posts)@.len() ==> post_fits(#[trigger] old(posts)@[i]),
        r != Err::<(Post, Vec<Post>), PostError>(
            PostError::Encryption(FieldError::RandomnessUnavailable),
        ) ==> (r is Ok <==> new_post.user@.len() <= MAX_AUTHOR_CHARS && post_fits(
            post_from(new_post, (old(posts)@.len() + 1) as usize),
        ) && forall|i: int| 0 <= i < old(posts)@.len() ==> post_fits(#[trigger] old(posts)@[i])),
        r matches Err(e) ==> final(posts)@ == old(posts)@,
        r matches Err(PostError::Encryption(e)) ==> e == FieldError::PlaintextTooLong || e
            == FieldError::RandomnessUnavailable,
        r matches Ok((p, stored)) ==> {
            &&& p@ == post_from(new_post, (old(posts)@.len() + 1) as usize)
            &&& final(posts)@ == old(posts)@.push(p@)
            &&& posts_sealed(posts_view(stored@), app_state.password@, final(posts)@)
        },
        ids_sequential(old(posts)@) ==> ids_sequential(final(posts)@),
{
    if new_post.user.as_str().unicode_len() > MAX_AUTHOR_CHARS {
        return Err(PostError::AuthorTooLong);
    }
    let post = Post {
        id: posts.posts.len() + 1,
        user: new_post.user,
        content: new_post.content,
        media: new_post.media,
        iv: new_post.iv,
        media_iv: new_post.media_iv,
    };
    assert(post@ == post_from(new_post, (posts@.len() + 1) as usize));
    assert(forall|i: int| 0 <= i < posts@.len() ==> #[trigger] posts@[i] == posts.posts@[i]@);
    let mut stored = match encode_posts(&posts.posts, app_state.password.as_str()) {
        Ok(s) => s,
        Err(e) => {
            proof {
                if e == FieldError::PlaintextTooLong {
                    let j = choose|j: int|
                        0 <= j < posts.posts@.len() && !post_fits(#[trigger] posts.posts@[j]@);
                    assert(posts@[j] == posts.posts@[j]@);
                }
            }
            return Err(PostError::Encryption(e));
        },
    };
    let sealed = match encrypt_post(&post, app_state.password.as_str()) {
        Ok(s) => s,
        Err(e) => return Err(PostError::Encryption(e)),
    };
    let ghost before = stored@;
    stored.push(sealed);
    let ghost old_posts = posts.posts@;
    posts.posts.push(post.duplicate());
    proof {
        assert(posts_view(posts.posts@) =~= posts_view(old_posts).push(post@));
        assert(posts_view(stored@) =~= posts_view(before).push(stored@.last()@));
    }
    Ok((post, stored))
}

} // verus!
