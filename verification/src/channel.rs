use vstd::prelude::*;

verus! {

/// A playback command for the out-of-process playback worker.
#[derive(Debug, Clone, Copy, PartialEq, Eq, Structural)]
pub struct PlaybackCmd {
    /// Whether the worker should pause (`true`) or play (`false`).
    pub pause: bool,
    /// Transport position in microseconds, for seeking on resume.
    pub position_us: u64,
    /// Playback speed in thousandths of real time.
    pub speed_mille: u32,
}

#[verifier::external_type_specification]
#[verifier::external_body]
#[verifier::reject_recursive_types(T)]
pub struct ExSpscQueue<T, const N: usize>(heapless::spsc::Queue<T, N>);

/// The items a command queue holds, front of the queue first.
pub uninterp spec fn spsc_items(q: heapless::spsc::Queue<(u8, u64, u32), 8>) -> Seq<(u8, u64, u32)>;

/// Relies on heapless::spsc::Queue::new: an empty queue that can hold up to
/// N - 1 items.
#[verifier::external_body]
fn cmd_queue_new() -> (q: heapless::spsc::Queue<(u8, u64, u32), 8>)
    ensures
        spsc_items(q) == Seq::<(u8, u64, u32)>::empty(),
{
    heapless::spsc::Queue::new()
}

/// Relies on heapless::spsc::Queue::enqueue: appends at the back and returns
/// Ok while fewer than N - 1 items are held, else hands the item back as Err.
#[verifier::external_body]
fn cmd_queue_enqueue(q: &mut heapless::spsc::Queue<(u8, u64, u32), 8>, v: (u8, u64, u32)) -> (r:
    bool)
    ensures
        spsc_items(*old(q)).len() < 7 ==> r && spsc_items(*final(q)) == spsc_items(
            *old(q),
        ).push(v),
        spsc_items(*old(q)).len() >= 7 ==> !r && spsc_items(*final(q)) == spsc_items(*old(q)),
{
    q.enqueue(v).is_ok()
}

/// Relies on heapless::spsc::Queue::dequeue: removes and returns the front
/// item, or None when the queue is empty.
#[verifier::external_body]
fn cmd_queue_dequeue(q: &mut heapless::spsc::Queue<(u8, u64, u32), 8>) -> (r: Option<
    (u8, u64, u32),
>)
    ensures
        spsc_items(*old(q)).len() == 0 ==> r is None && spsc_items(*final(q)) == spsc_items(
            *old(q),
        ),
        spsc_items(*old(q)).len() > 0 ==> r == Some(spsc_items(*old(q))[0]) && spsc_items(
            *final(q),
        ) == spsc_items(*old(q)).drop_first(),
{
    q.dequeue()
}

/// Relies on heapless::spsc::Queue::len: the number of items held.
#[verifier::external_body]
fn cmd_queue_len(q: &heapless::spsc::Queue<(u8, u64, u32), 8>) -> (r: usize)
    ensures
        r == spsc_items(*q).len(),
{
    q.len()
}

/// How many commands the playback channel can hold before it drops new ones.
pub const PLAYBACK_CHANNEL_CAPACITY: usize = 7;

/// The command carried by one queue slot.
spec fn cmd_of_tuple(t: (u8, u64, u32)) -> PlaybackCmd {
    PlaybackCmd { pause: t.0 != 0, position_us: t.1, speed_mille: t.2 }
}

/// Bounded FIFO carrying play/pause/seek/speed commands from the transport
/// machinery to the playback worker. Sending never blocks: a command that finds the channel
/// full is dropped, on the grounds that the next command supersedes it.
pub struct PlaybackChannel {
    queue: heapless::spsc::Queue<(u8, u64, u32), 8>,
}

impl PlaybackChannel {
    /// The pending commands, oldest first.
    pub closed spec fn commands(self) -> Seq<PlaybackCmd> {
        spsc_items(self.queue).map_values(|t: (u8, u64, u32)| cmd_of_tuple(t))
    }

    /// An empty channel.
    pub fn new() -> (r: PlaybackChannel)
        ensures
            r.commands() == Seq::<PlaybackCmd>::empty(),
    {
        let r = PlaybackChannel { queue: cmd_queue_new() };
        proof {
            assert(r.commands() =~= Seq::<PlaybackCmd>::empty());
        }
        r
    }

    /// Number of commands waiting.
    pub fn len(&self) -> (r: usize)
        ensures
            r == self.commands().len(),
    {
        cmd_queue_len(&self.queue)
    }

    /// Append `cmd` unless the channel is full; returns whether it was
    /// accepted. A refused command is dropped for good.
    pub fn send(&mut self, cmd: PlaybackCmd) -> (r: bool)
        ensures
            old(self).commands().len() < PLAYBACK_CHANNEL_CAPACITY
                ==> r && final(self).commands() == old(self).commands().push(cmd),
            old(self).commands().len() >= PLAYBACK_CHANNEL_CAPACITY
                ==> !r && final(self).commands() == old(self).commands(),
    {
        let t = (
            if cmd.pause {
                1u8
            } else {
                0u8
            },
            cmd.position_us,
            cmd.speed_mille,
        );
        let ghost before = spsc_items(self.queue);
        let r = cmd_queue_enqueue(&mut self.queue, t);
        proof {
            if before.len() < 7 {
                assert(cmd_of_tuple(t) == cmd);
                assert(self.commands() =~= old(self).commands().push(cmd));
            }
        }
        r
    }

    /// Remove and return the oldest pending command, or None when empty.
    pub fn recv(&mut self) -> (r: Option<PlaybackCmd>)
        ensures
            old(self).commands().len() == 0
                ==> r is None && final(self).commands() == old(self).commands(),
            old(self).commands().len() > 0
                ==> r == Some(old(self).commands()[0])
                    && final(self).commands() == old(self).commands().drop_first(),
    {
        let ghost before = spsc_items(self.queue);
        match cmd_queue_dequeue(&mut self.queue) {
            None => None,
            Some(t) => {
                proof {
                    assert(self.commands() =~= old(self).commands().drop_first());
                }
                Some(
                    PlaybackCmd {
                        pause: t.0 != 0,
                        position_us: t.1,
                        speed_mille: t.2,
                    },
                )
            },
        }
    }
}

} // verus!
