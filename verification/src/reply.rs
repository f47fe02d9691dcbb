//! Reading the text out of a model's reply.

use vstd::prelude::*;

verus! {

/// One block of a message.
#[derive(Debug, PartialEq, Eq)]
pub enum ReplyBlock {
    Text(String),
    Other,
}

/// What the model service answered.
#[derive(Debug, PartialEq, Eq)]
pub enum ModelReply {
    /// An answer without output.
    NoOutput,
    /// Output that is no message.
    NoMessage,
    /// A message of several blocks.
    Message(Vec<ReplyBlock>),
}

/// The first text among `blocks`.
pub open spec fn first_text(blocks: Seq<ReplyBlock>) -> Option<Seq<char>>
    decreases blocks.len(),
{
    if blocks.len() == 0 {
        None
    } else if let ReplyBlock::Text(t) = blocks[0] {
        Some(t@)
    } else {
        first_text(blocks.skip(1))
    }
}

/// The text of a reply, or why it holds none.
pub open spec fn text_of(reply: ModelReply) -> Result<Seq<char>, Seq<char>> {
    match reply {
        ModelReply::NoOutput => Err("No output in response"@),
        ModelReply::NoMessage => Err("Output is not a message"@),
        ModelReply::Message(blocks) => match first_text(blocks@) {
            Some(t) => Ok(t),
            None => Err("No text in response"@),
        },
    }
}

/// The text of a reply, or why it holds none.
pub fn reply_text(reply: &ModelReply) -> (r: Result<String, String>)
    ensures
        text_of(*reply) == match r {
            Ok(t) => Ok(t@),
            Err(e) => Err(e@),
        },
{
    match reply {
        ModelReply::NoOutput => Err("No output in response".to_owned()),
        ModelReply::NoMessage => Err("Output is not a message".to_owned()),
        ModelReply::Message(blocks) => {
            assert(blocks@.skip(0) == blocks@);
            for i in 0..blocks.len()
                invariant
                    *reply == ModelReply::Message(*blocks),
                    first_text(blocks@) == first_text(blocks@.skip(i as int)),
            {
                assert(blocks@.skip(i as int)[0] == blocks@[i as int]);
                assert(blocks@.skip(i as int).skip(1) == blocks@.skip(i + 1));
                if let ReplyBlock::Text(t) = &blocks[i] {
                    return Ok(t.clone());
                }
            }
            Err("No text in response".to_owned())
        },
    }
}

/// The text of a message is its first block of text: the blocks before it hold
/// none, and what comes behind it does not matter. A message has a text exactly
/// where one of its blocks is text, even an empty one.
pub proof fn first_text_is_read(blocks: Vec<ReplyBlock>)
    ensures
        match text_of(ModelReply::Message(blocks)) {
            Ok(t) => exists|i: int|
                {
                    &&& 0 <= i < blocks@.len()
                    &&& (#[trigger] blocks@[i]) is Text
                    &&& blocks@[i]->Text_0@ == t
                    &&& forall|j: int| 0 <= j < i ==> (#[trigger] blocks@[j]) is Other
                },
            Err(e) => {
                &&& e == "No text in response"@
                &&& forall|i: int| 0 <= i < blocks@.len() ==> (#[trigger] blocks@[i]) is Other
            },
        },
        text_of(ModelReply::NoOutput) == Err::<Seq<char>, Seq<char>>("No output in response"@),
        text_of(ModelReply::NoMessage) == Err::<Seq<char>, Seq<char>>("Output is not a message"@),
{
    first_text_stands(blocks@);
}

proof fn first_text_stands(blocks: Seq<ReplyBlock>)
    ensures
        match first_text(blocks) {
            Some(t) => exists|i: int|
                {
                    &&& 0 <= i < blocks.len()
                    &&& (#[trigger] blocks[i]) is Text
                    &&& blocks[i]->Text_0@ == t
                    &&& forall|j: int| 0 <= j < i ==> (#[trigger] blocks[j]) is Other
                },
            None => forall|i: int| 0 <= i < blocks.len() ==> (#[trigger] blocks[i]) is Other,
        },
    decreases blocks.len(),
{
    if blocks.len() > 0 {
        let rest = blocks.skip(1);
        if blocks[0] is Other {
            first_text_stands(rest);
            if let Some(t) = first_text(rest) {
                let i = choose|i: int|
                    {
                        &&& 0 <= i < rest.len()
                        &&& (#[trigger] rest[i]) is Text
                        &&& rest[i]->Text_0@ == t
                        &&& forall|j: int| 0 <= j < i ==> (#[trigger] rest[j]) is Other
                    };
                assert(blocks[i + 1] == rest[i]);
                assert forall|j: int| 0 <= j < i + 1 implies (#[trigger] blocks[j]) is Other by {
                    if j > 0 {
                        assert(blocks[j] == rest[j - 1]);
                    }
                }
            } else {
                assert forall|j: int| 0 <= j < blocks.len() implies (
                #[trigger] blocks[j]) is Other by {
                    if j > 0 {
                        assert(blocks[j] == rest[j - 1]);
                    }
                }
            }
        } else {
            assert(blocks[0] is Text);
        }
    }
}

} // verus!
