//! The message board behind the web page: it lists the messages posted so far and
//! takes new ones whose fields have acceptable lengths.
use vstd::prelude::*;
use vstd::utf8::encode_utf8;

verus! {

/// A message on the board.
#[derive(Debug)]
pub struct Message {
    pub username: String,
    pub content: String,
}

/// A message as a pair of texts: author, then content.
pub open spec fn message_view(m: &Message) -> (Seq<char>, Seq<char>) {
    (m.username@, m.content@)
}

/// A copy of a message.
pub fn copy_message(m: &Message) -> (c: Message)
    ensures
        message_view(&c) == message_view(m),
{
    Message { username: m.username.clone(), content: m.content.clone() }
}

/// A user name is non-empty and at most 50 bytes long.
pub open spec fn username_ok(name: Seq<char>) -> bool {
    name.len() > 0 && encode_utf8(name).len() <= 50
}

/// A content is non-empty and at most 1000 bytes long.
pub open spec fn content_ok(text: Seq<char>) -> bool {
    text.len() > 0 && encode_utf8(text).len() <= 1000
}

/// A post is accepted when both its fields have acceptable lengths.
pub open spec fn accepted(m: (Seq<char>, Seq<char>)) -> bool {
    username_ok(m.0) && content_ok(m.1)
}

/// The board after one post: the post is appended if it is accepted.
pub open spec fn post_spec(
    board: Seq<(Seq<char>, Seq<char>)>,
    m: (Seq<char>, Seq<char>),
) -> Seq<(Seq<char>, Seq<char>)> {
    if accepted(m) {
        board.push(m)
    } else {
        board
    }
}

/// The status code answering a post.
pub open spec fn post_status(m: (Seq<char>, Seq<char>)) -> u16 {
    if accepted(m) {
        CREATED
    } else {
        BAD_REQUEST
    }
}

/// The board's messages, oldest first.
pub struct MessageBoard {
    messages: Vec<Message>,
}

impl View for MessageBoard {
    type V = Seq<(Seq<char>, Seq<char>)>;

    closed spec fn view(&self) -> Seq<(Seq<char>, Seq<char>)> {
        self.messages@.map_values(|m: Message| message_view(&m))
    }
}

/// The message that greets every new board.
pub open spec fn welcome() -> (Seq<char>, Seq<char>) {
    ("System"@, "欢迎来到 Rust 留言板！"@)
}

/// Status code of a message that was added.
pub const CREATED: u16 = 201;

/// Status code of a message that was refused.
pub const BAD_REQUEST: u16 = 400;

impl MessageBoard {
    /// A board that holds the welcome message alone.
    pub fn new() -> (b: MessageBoard)
        ensures
            b@ == seq![welcome()],
    {
        let mut messages: Vec<Message> = Vec::new();
        messages.push(
            Message { username: "System".to_owned(), content: "欢迎来到 Rust 留言板！".to_owned() },
        );
        let b = MessageBoard { messages };
        assert(b@ =~= seq![welcome()]);
        b
    }

    /// All messages, oldest first.
    pub fn get_messages(&self) -> (list: Vec<Message>)
        ensures
            list@.map_values(|m: Message| message_view(&m)) == self@,
    {
        let n = self.messages.len();
        let mut list: Vec<Message> = Vec::new();
        let mut i: usize = 0;
        while i < n
            invariant
                i <= n,
                n == self.messages@.len(),
                list@.len() == i,
                forall|j: int| 0 <= j < i ==> message_view(&#[trigger] list@[j]) == message_view(
                    &self.messages@[j],
                ),
            decreases n - i,
        {
            list.push(copy_message(&self.messages[i]));
            i = i + 1;
        }
        assert(list@.map_values(|m: Message| message_view(&m)) =~= self@);
        list
    }

    /// Posts a message. One with an empty or over-long user name or content is refused
    /// with status 400 and the board stays as it was; otherwise it is appended and
    /// answered with status 201. Either way the message is handed back. (Strings in
    /// memory always have byte lengths that fit in a `usize`.)
    pub fn create_message(&mut self, payload: Message) -> (r: (u16, Message))
        requires
            encode_utf8(payload.username@).len() <= usize::MAX,
            encode_utf8(payload.content@).len() <= usize::MAX,
        ensures
            message_view(&r.1) == message_view(&payload),
            r.0 == (if accepted(message_view(&payload)) { CREATED } else { BAD_REQUEST }),
            r.0 == post_status(message_view(&payload)),
            final(self)@ == post_spec(old(self)@, message_view(&payload)),
    {
        let name = payload.username.as_str();
        if name.is_empty() || name.len() > 50 {
            return (BAD_REQUEST, payload);
        }
        let text = payload.content.as_str();
        if text.is_empty() || text.len() > 1000 {
            return (BAD_REQUEST, payload);
        }
        let kept = copy_message(&payload);
        let ghost before = self.messages@;
        self.messages.push(kept);
        assert(self@ =~= old(self)@.push(message_view(&payload)));
        (CREATED, payload)
    }
}

/// What a board holds after a sequence of posts: each acceptable post, in order.
pub open spec fn after_posts(
    board: Seq<(Seq<char>, Seq<char>)>,
    posts: Seq<(Seq<char>, Seq<char>)>,
) -> Seq<(Seq<char>, Seq<char>)>
    decreases posts.len(),
{
    if posts.len() == 0 {
        board
    } else {
        post_spec(after_posts(board, posts.drop_last()), posts.last())
    }
}

/// Posting never removes or reorders messages: whatever the board held stays, in
/// its place, at the front, and every message on it is the welcome one or an
/// acceptable post.
pub proof fn law_board_only_grows(
    board: Seq<(Seq<char>, Seq<char>)>,
    posts: Seq<(Seq<char>, Seq<char>)>,
)
    ensures
        after_posts(board, posts).len() >= board.len(),
        after_posts(board, posts).subrange(0, board.len() as int) == board,
        after_posts(board, posts).len() <= board.len() + posts.len(),
        forall|i: int|
            board.len() <= i < after_posts(board, posts).len() ==> {
                let m = #[trigger] after_posts(board, posts)[i];
                accepted(m) && posts.contains(m)
            },
    decreases posts.len(),
{
    if posts.len() == 0 {
        assert(board.subrange(0, board.len() as int) =~= board);
    } else {
        let init = posts.drop_last();
        law_board_only_grows(board, init);
        let before = after_posts(board, init);
        let after = after_posts(board, posts);
        assert(after.subrange(0, board.len() as int) =~= before.subrange(0, board.len() as int));
        assert forall|i: int| board.len() <= i < after.len() implies {
            let m = #[trigger] after[i];
            accepted(m) && posts.contains(m)
        } by {
            if i < before.len() {
                assert(after[i] == before[i]);
                let m = before[i];
                let k = choose|k: int| 0 <= k < init.len() && init[k] == m;
                assert(posts[k] == m);
            } else {
                assert(posts[posts.len() - 1] == posts.last());
            }
        }
    }
}

/// The limits of a post, counted in bytes of UTF-8 whatever the number of
/// characters: a post whose user name is empty or longer than 50 bytes, or whose
/// content is empty or longer than 1000 bytes, is answered 400 and leaves the board
/// as it was; any other post is answered 201 and appended at the end.
pub proof fn law_post_limits_in_bytes(board: Seq<(Seq<char>, Seq<char>)>, name: Seq<char>, content: Seq<char>)
    ensures
        name.len() == 0 || encode_utf8(name).len() > 50 || content.len() == 0 || encode_utf8(
            content,
        ).len() > 1000 ==> post_status((name, content)) == 400 && post_spec(board, (name, content))
            == board,
        name.len() > 0 && encode_utf8(name).len() <= 50 && content.len() > 0 && encode_utf8(
            content,
        ).len() <= 1000 ==> post_status((name, content)) == 201 && post_spec(board, (name, content))
            == board.push((name, content)),
{
}

} // verus!
