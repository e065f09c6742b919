//! The computing half of the remote task channel: splitting a result into
//! transport-sized byte chunks, building the store's endpoint URLs, the
//! privilege icon of a session page, and picking the tasks still pending.
//!
//! The network calls themselves live outside the library; they hand in and
//! take back the plain values these functions speak about.  Chunk boundaries
//! are byte boundaries, matching the store's strict per-block size ceiling;
//! a result holding multi-byte text is reassembled byte for byte on the
//! other side before it is read as text again.

use vstd::prelude::*;

verus! {

/// The store's ceiling on one content block, in bytes.
pub const CHUNK_SIZE: usize = 2000;

/// The views of a sequence of byte vectors.
pub open spec fn byte_views(v: Seq<Vec<u8>>) -> Seq<Seq<u8>> {
    v.map_values(|c: Vec<u8>| c@)
}

proof fn lemma_byte_views_push(v: Seq<Vec<u8>>, c: Vec<u8>)
    ensures
        byte_views(v.push(c)) == byte_views(v).push(c@),
{
    assert(byte_views(v.push(c)) =~~= byte_views(v).push(c@));
}

/// All chunks joined back together, in order.
pub open spec fn concat_chunks(cs: Seq<Seq<u8>>) -> Seq<u8>
    decreases cs.len(),
{
    if cs.len() == 0 {
        Seq::empty()
    } else {
        concat_chunks(cs.drop_last()) + cs.last()
    }
}

/// Splits a result into chunks of at most `CHUNK_SIZE` bytes: every chunk
/// but the last is full, no chunk is empty, and joining the chunks restores
/// the input byte for byte.  An empty result yields no chunks at all.
pub fn chunk_output(output: &Vec<u8>) -> (chunks: Vec<Vec<u8>>)
    ensures
        concat_chunks(byte_views(chunks@)) == output@,
        forall|k: int| 0 <= k < chunks@.len() ==> 0 < #[trigger] chunks@[k]@.len() <= CHUNK_SIZE,
        forall|k: int| 0 <= k < chunks@.len() - 1 ==> #[trigger] chunks@[k]@.len() == CHUNK_SIZE,
        output@.len() == 0 <==> chunks@.len() == 0,
{
    let mut chunks: Vec<Vec<u8>> = Vec::new();
    let mut i: usize = 0;
    proof {
        assert(concat_chunks(byte_views(chunks@)) =~= output@.take(0));
    }
    while i < output.len()
        invariant
            i <= output@.len(),
            concat_chunks(byte_views(chunks@)) == output@.take(i as int),
            forall|k: int| 0 <= k < chunks@.len() ==> 0 < #[trigger] chunks@[k]@.len() <= CHUNK_SIZE,
            i < output@.len() ==> (forall|k: int|
                0 <= k < chunks@.len() ==> #[trigger] chunks@[k]@.len() == CHUNK_SIZE),
            forall|k: int|
                0 <= k < chunks@.len() - 1 ==> #[trigger] chunks@[k]@.len() == CHUNK_SIZE,
            chunks@.len() == 0 ==> i == 0,
        decreases output@.len() - i,
    {
        let end = if output.len() - i >= CHUNK_SIZE {
            i + CHUNK_SIZE
        } else {
            output.len()
        };
        let mut chunk: Vec<u8> = Vec::new();
        let mut j = i;
        while j < end
            invariant
                i <= j <= end,
                end <= output@.len(),
                chunk@ == output@.subrange(i as int, j as int),
            decreases end - j,
        {
            let b = output[j];
            chunk.push(b);
            j += 1;
            proof {
                assert(chunk@ =~= output@.subrange(i as int, j as int));
            }
        }
        let ghost cpre = chunks@;
        chunks.push(chunk);
        proof {
            lemma_byte_views_push(cpre, chunk);
            assert(byte_views(chunks@).drop_last() =~~= byte_views(cpre));
            assert(output@.take(i as int) + output@.subrange(i as int, end as int) =~= output@.take(
                end as int,
            ));
        }
        i = end;
    }
    proof {
        assert(output@.take(output@.len() as int) =~= output@);
        if output@.len() == 0 {
            assert(concat_chunks(byte_views(chunks@)) =~= output@);
        }
    }
    chunks
}

/// The children endpoint of a block: lists its child blocks, or appends the
/// content blocks that carry a chunked result.
pub fn children_url(base: &str, block_id: &str) -> (r: String)
    ensures
        r@ == base@ + "/blocks/"@ + block_id@ + "/children"@,
{
    let mut url = base.to_owned();
    url.append("/blocks/");
    url.append(block_id);
    url.append("/children");
    proof {
        assert(url@ =~= base@ + "/blocks/"@ + block_id@ + "/children"@);
    }
    url
}

/// The endpoint of one block: used to flip a task's checklist flag.
pub fn block_url(base: &str, block_id: &str) -> (r: String)
    ensures
        r@ == base@ + "/blocks/"@ + block_id@,
{
    let mut url = base.to_owned();
    url.append("/blocks/");
    url.append(block_id);
    proof {
        assert(url@ =~= base@ + "/blocks/"@ + block_id@);
    }
    url
}

/// The page-creation endpoint.
pub fn pages_url(base: &str) -> (r: String)
    ensures
        r@ == base@ + "/pages/"@,
{
    let mut url = base.to_owned();
    url.append("/pages/");
    proof {
        assert(url@ =~= base@ + "/pages/"@);
    }
    url
}

/// The icon of a freshly created session page: it tells the operator the
/// agent's privilege state at a glance, without spelling it out anywhere.
pub fn check_in_emoji(is_admin: bool) -> (r: String)
    ensures
        is_admin ==> r@ == "#\u{fe0f}\u{20e3}"@,
        !is_admin ==> r@ == "\u{1f4b2}"@,
{
    if is_admin {
        String::from_str("#\u{fe0f}\u{20e3}")
    } else {
        String::from_str("\u{1f4b2}")
    }
}

/// One task record of the remote store: a checklist child block of the
/// session page.
pub struct Task {
    /// The block's identifier in the store.
    pub id: String,
    /// The instruction text the operator wrote on the checklist item.
    pub instruction: String,
    /// Whether the checklist flag has been flipped to done.
    pub completed: bool,
}

/// The mathematical image of a task.
pub struct TaskView {
    pub id: Seq<char>,
    pub instruction: Seq<char>,
    pub completed: bool,
}

impl View for Task {
    type V = TaskView;

    open spec fn view(&self) -> TaskView {
        TaskView { id: self.id@, instruction: self.instruction@, completed: self.completed }
    }
}

impl Clone for Task {
    fn clone(&self) -> (r: Self)
        ensures
            r@ == self@,
    {
        Task {
            id: self.id.clone(),
            instruction: self.instruction.clone(),
            completed: self.completed,
        }
    }
}

/// The views of a sequence of tasks.
pub open spec fn task_views(ts: Seq<Task>) -> Seq<TaskView> {
    ts.map_values(|t: Task| t@)
}

/// The tasks not yet marked complete, in their listed order.
pub open spec fn pending_of(ts: Seq<TaskView>) -> Seq<TaskView>
    decreases ts.len(),
{
    if ts.len() == 0 {
        Seq::empty()
    } else {
        let rest = pending_of(ts.drop_last());
        if !ts.last().completed {
            rest.push(ts.last())
        } else {
            rest
        }
    }
}

/// Filters a listing of the session page down to the tasks still waiting to
/// run: those whose checklist flag is not yet set.
pub fn pending_tasks(tasks: &Vec<Task>) -> (r: Vec<Task>)
    ensures
        task_views(r@) == pending_of(task_views(tasks@)),
{
    let mut out: Vec<Task> = Vec::new();
    let mut i: usize = 0;
    proof {
        assert(task_views(out@) =~~= pending_of(task_views(tasks@).take(0)));
    }
    while i < tasks.len()
        invariant
            i <= tasks@.len(),
            task_views(out@) == pending_of(task_views(tasks@).take(i as int)),
        decreases tasks@.len() - i,
    {
        let ghost tv = task_views(tasks@);
        proof {
            assert(tv.take(i + 1).drop_last() =~= tv.take(i as int));
            assert(tv.take(i + 1).last() == tv[i as int]);
            assert(tv[i as int] == tasks@[i as int]@);
        }
        if !tasks[i].completed {
            let ghost opre = out@;
            let t = tasks[i].clone();
            out.push(t);
            proof {
                assert(task_views(out@) =~~= task_views(opre).push(t@));
            }
        }
        i += 1;
    }
    proof {
        assert(task_views(tasks@).take(tasks@.len() as int) =~= task_views(tasks@));
    }
    out
}

} // verus!
