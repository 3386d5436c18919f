use vstd::prelude::*;

verus! {

/// How many events a buffer collects before they are handed over as a batch.
pub const BUFFER_LEN: usize = 64;

/// Something that happened to a cache entry, recorded so that the eviction
/// policy can learn of it later, in a batch.
#[derive(Clone, Copy, Debug, PartialEq, Eq, Structural)]
pub enum Event {
    /// The entry with this ID was read.
    Access(u128),
    /// The entry with this ID was found not to exist.
    Missing(u128),
    /// A value with this ID was stored under the given handle.
    Insert(u128, u64),
}

/// A full batch of `BUFFER_LEN` events, oldest first.
pub struct Events {
    events: Vec<Event>,
}

impl View for Events {
    type V = Seq<Event>;

    closed spec fn view(&self) -> Seq<Event> {
        self.events@
    }
}

impl Events {
    /// The batch's events, oldest first.
    pub fn into_vec(self) -> (events: Vec<Event>)
        ensures
            events@ == self@,
    {
        self.events
    }
}

/// The events of a batch, if there is one.
pub open spec fn batch_view(batch: Option<Events>) -> Option<Seq<Event>> {
    match batch {
        Some(b) => Some(b@),
        None => None,
    }
}

/// What a buffer holds after `event` is pushed onto `buf`, and the batch
/// that the push hands over, if the buffer was full.
pub open spec fn push_spec(buf: Seq<Event>, event: Event) -> (Seq<Event>, Option<Seq<Event>>) {
    if buf.len() == BUFFER_LEN {
        (seq![event], Some(buf))
    } else {
        (buf.push(event), None)
    }
}

/// A bounded buffer of events that hands over its contents once full.
pub struct Buffer {
    data: Vec<Event>,
}

impl View for Buffer {
    type V = Seq<Event>;

    closed spec fn view(&self) -> Seq<Event> {
        self.data@
    }
}

impl Buffer {
    pub closed spec fn wf(&self) -> bool {
        self.data@.len() <= BUFFER_LEN
    }

    pub fn new() -> (buffer: Self)
        ensures
            buffer.wf(),
            buffer@ == Seq::<Event>::empty(),
    {
        Buffer { data: Vec::new() }
    }

    pub fn clear(&mut self)
        ensures
            final(self).wf(),
            final(self)@ == Seq::<Event>::empty(),
    {
        self.data = Vec::new();
    }

    /// Records `event`. When the buffer was already full, its
    /// `BUFFER_LEN` events are handed back as a batch and the buffer then
    /// holds `event` alone.
    pub fn push(&mut self, event: Event) -> (batch: Option<Events>)
        requires
            old(self).wf(),
        ensures
            final(self).wf(),
            (final(self)@, batch_view(batch)) == push_spec(old(self)@, event),
            // Nothing is lost and nothing is reordered.
            match batch {
                Some(b) => b@ + final(self)@ == old(self)@.push(event),
                None => final(self)@ == old(self)@.push(event),
            },
    {
        if self.data.len() == BUFFER_LEN {
            let events = self.take();
            self.data.push(event);
            assert(events@ + self@ =~= events@.push(event));
            Some(events)
        } else {
            self.data.push(event);
            None
        }
    }

    fn take(&mut self) -> (events: Events)
        ensures
            events@ == old(self)@,
            final(self)@ == Seq::<Event>::empty(),
    {
        let mut events = Vec::new();
        std::mem::swap(&mut events, &mut self.data);
        Events { events }
    }
}

/// A buffer tagged with the version of the token that last wrote to it.
pub struct VersionedBuffer {
    buffer: Buffer,
    version: usize,
}

impl VersionedBuffer {
    pub closed spec fn wf(&self) -> bool {
        self.buffer.wf()
    }

    pub closed spec fn version(&self) -> usize {
        self.version
    }

    pub closed spec fn events(&self) -> Seq<Event> {
        self.buffer@
    }

    pub fn new() -> (vb: Self)
        ensures
            vb.wf(),
            vb.version() == 0,
            vb.events() == Seq::<Event>::empty(),
    {
        VersionedBuffer { buffer: Buffer::new(), version: 0 }
    }

    /// The buffer for a token of the given version. Events that an
    /// earlier holder of another version left behind are discarded.
    pub fn get(&mut self, version: usize) -> (buffer: &mut Buffer)
        requires
            old(self).wf(),
        ensures
            buffer.wf(),
            buffer@ == (if version == old(self).version() {
                old(self).events()
            } else {
                Seq::<Event>::empty()
            }),
            final(buffer).wf() ==> final(self).wf(),
            final(self).version() == version,
            final(self).events() == final(buffer)@,
    {
        if version != self.version {
            self.buffer.clear();
            self.version = version;
        }
        &mut self.buffer
    }
}

/// The buffer state a token of `version` finds in `vb`.
pub open spec fn visible_events(vb: VersionedBuffer, version: usize) -> Seq<Event> {
    if vb.version() == version {
        vb.events()
    } else {
        Seq::<Event>::empty()
    }
}

/// The per-token buffers of one cache, indexed by token index.
pub struct BufferStorage {
    buffers: Vec<VersionedBuffer>,
}

impl View for BufferStorage {
    type V = Seq<VersionedBuffer>;

    closed spec fn view(&self) -> Seq<VersionedBuffer> {
        self.buffers@
    }
}

impl BufferStorage {
    pub open spec fn wf(&self) -> bool {
        forall|i: int| 0 <= i < self@.len() ==> (#[trigger] self@[i]).wf()
    }

    pub fn new() -> (storage: Self)
        ensures
            storage.wf(),
            storage@ == Seq::<VersionedBuffer>::empty(),
    {
        BufferStorage { buffers: Vec::new() }
    }

    /// Records `event` in the buffer of `token`, creating buffers up to the
    /// token's index as needed. Returns a full batch when the token's buffer
    /// overflows.
    pub fn emit(&mut self, token: &BufferToken, event: Event) -> (batch: Option<Events>)
        requires
            old(self).wf(),
        ensures
            final(self).wf(),
            final(self)@.len() == (if token.index() < old(self)@.len() {
                old(self)@.len() as int
            } else {
                token.index() + 1
            }),
            forall|j: int|
                0 <= j < final(self)@.len() && j != token.index() ==> if j < old(self)@.len() {
                    #[trigger] final(self)@[j] == old(self)@[j]
                } else {
                    final(self)@[j].version() == 0 && final(self)@[j].events() == Seq::<
                        Event,
                    >::empty()
                },
            final(self)@[token.index() as int].version() == token.version(),
            ({
                let base = if token.index() < old(self)@.len() {
                    visible_events(old(self)@[token.index() as int], token.version())
                } else {
                    Seq::<Event>::empty()
                };
                (final(self)@[token.index() as int].events(), batch_view(batch)) == push_spec(
                    base,
                    event,
                )
            }),
    {
        let index = token.index;
        if index < self.buffers.len() {
            let vb = &mut self.buffers[index];
            let buffer = vb.get(token.version);
            let batch = buffer.push(event);
            return batch;
        }
        while self.buffers.len() <= index
            invariant
                forall|i: int| 0 <= i < self.buffers@.len() ==> (#[trigger] self.buffers@[i]).wf(),
                old(self)@.len() <= self.buffers@.len() <= index + 1,
                forall|j: int| 0 <= j < old(self)@.len() ==> #[trigger] self.buffers@[j] == old(self)@[j],
                forall|j: int|
                    old(self)@.len() <= j < self.buffers@.len() ==> (#[trigger] self.buffers@[j]).version()
                        == 0 && self.buffers@[j].events() == Seq::<Event>::empty(),
            decreases index + 1 - self.buffers@.len(),
        {
            self.buffers.push(VersionedBuffer::new());
        }
        let vb = &mut self.buffers[index];
        let buffer = vb.get(token.version);
        buffer.push(event)
    }
}

/// Bookkeeping for one buffer slot: which version last claimed it, and
/// whether a live token holds it.
pub struct BufferInfo {
    version: usize,
    claimed: bool,
}

impl BufferInfo {
    pub closed spec fn version(&self) -> usize {
        self.version
    }

    pub closed spec fn claimed(&self) -> bool {
        self.claimed
    }

    /// A fresh slot, claimed at version 0.
    pub fn new() -> (info: Self)
        ensures
            info.version() == 0,
            info.claimed(),
    {
        BufferInfo { version: 0, claimed: true }
    }

    /// Claims a released slot under the next version, which it returns.
    pub fn claim(&mut self) -> (version: usize)
        requires
            !old(self).claimed(),
            old(self).version() < usize::MAX,
        ensures
            final(self).claimed(),
            version == old(self).version() + 1,
            final(self).version() == version,
    {
        self.claimed = true;
        self.version = self.version + 1;
        self.version
    }

    pub fn release(&mut self)
        ensures
            !final(self).claimed(),
            final(self).version() == old(self).version(),
    {
        self.claimed = false;
    }
}

/// The right to write to one buffer slot, under one version.
#[derive(Debug)]
pub struct BufferToken {
    index: usize,
    version: usize,
}

impl BufferToken {
    pub closed spec fn index(&self) -> usize {
        self.index
    }

    pub closed spec fn version(&self) -> usize {
        self.version
    }

    /// Claims a token from `registry`.
    pub fn new(registry: &mut TokenRegistry) -> (token: Self)
        requires
            old(registry).can_claim(),
        ensures
            final(registry).claimed_by(token),
            final(registry).claim_spec(*old(registry), token),
    {
        registry.claim()
    }

    pub fn index_of(&self) -> (index: usize)
        ensures
            index == self.index(),
    {
        self.index
    }

    pub fn version_of(&self) -> (version: usize)
        ensures
            version == self.version(),
    {
        self.version
    }
}

/// The buffer slots of all caches, and which of them live tokens hold.
pub struct TokenRegistry {
    infos: Vec<BufferInfo>,
}

impl View for TokenRegistry {
    type V = Seq<BufferInfo>;

    closed spec fn view(&self) -> Seq<BufferInfo> {
        self.infos@
    }
}

pub proof fn lemma_claim_room(before: TokenRegistry, after: TokenRegistry, token: BufferToken, n: nat)
    requires
        before.room_for_claims(n + 1),
        after.claim_spec(before, token),
        after.claimed_by(token),
    ensures
        after.room_for_claims(n),
        before.can_claim(),
{
    assert forall|i: int| 0 <= i < after@.len() implies (#[trigger] after@[i]).version() + n < usize::MAX by {
        match first_released(before@) {
            Some(j) => {
                if i != j {
                    assert(after@[i] == before@[i]);
                }
            },
            None => {
                if i < before@.len() {
                    assert(after@[i] == before@[i]);
                }
            },
        }
    }
}

/// The index of the first released slot, if any.
pub open spec fn first_released(infos: Seq<BufferInfo>) -> Option<int>
    decreases infos.len(),
{
    if infos.len() == 0 {
        None
    } else if !infos[0].claimed() {
        Some(0)
    } else {
        match first_released(infos.drop_first()) {
            Some(i) => Some(i + 1),
            None => None,
        }
    }
}

pub proof fn lemma_first_released(infos: Seq<BufferInfo>)
    ensures
        match first_released(infos) {
            Some(i) => 0 <= i < infos.len() && !infos[i].claimed() && forall|j: int|
                0 <= j < i ==> (#[trigger] infos[j]).claimed(),
            None => forall|j: int| 0 <= j < infos.len() ==> (#[trigger] infos[j]).claimed(),
        },
    decreases infos.len(),
{
    if infos.len() > 0 {
        lemma_first_released(infos.drop_first());
        if infos[0].claimed() {
            assert forall|j: int| 1 <= j < infos.len() implies infos[j] == infos.drop_first()[j - 1] by {}
        }
    }
}

impl TokenRegistry {
    pub fn new() -> (registry: Self)
        ensures
            registry@ == Seq::<BufferInfo>::empty(),
    {
        TokenRegistry { infos: Vec::new() }
    }

    /// Every slot can be claimed once more without its version overflowing.
    pub open spec fn can_claim(&self) -> bool {
        forall|i: int| 0 <= i < self@.len() ==> (#[trigger] self@[i]).version() < usize::MAX
    }

    /// Every slot can be claimed `n` more times without its version
    /// overflowing.
    pub open spec fn room_for_claims(&self, n: nat) -> bool {
        &&& n < usize::MAX
        &&& forall|i: int| 0 <= i < self@.len() ==> (#[trigger] self@[i]).version() + n < usize::MAX
    }

    /// `token` holds its slot, under the slot's current version.
    pub open spec fn claimed_by(&self, token: BufferToken) -> bool {
        &&& 0 <= token.index() < self@.len()
        &&& self@[token.index() as int].claimed()
        &&& self@[token.index() as int].version() == token.version()
    }

    /// How claiming a token changes the registry: the first released slot is
    /// reclaimed under its next version, or, if every slot is held, a new slot
    /// is added at version 0.
    pub open spec fn claim_spec(&self, before: TokenRegistry, token: BufferToken) -> bool {
        match first_released(before@) {
            Some(i) => {
                &&& token.index() == i
                &&& token.version() == before@[i].version() + 1
                &&& self@.len() == before@.len()
                &&& forall|j: int| 0 <= j < self@.len() && j != i ==> #[trigger] self@[j] == before@[j]
            },
            None => {
                &&& token.index() == before@.len()
                &&& token.version() == 0
                &&& self@.len() == before@.len() + 1
                &&& forall|j: int| 0 <= j < before@.len() ==> #[trigger] self@[j] == before@[j]
            },
        }
    }

    /// Hands out a token for the first released slot, or for a new one.
    pub fn claim(&mut self) -> (token: BufferToken)
        requires
            old(self).can_claim(),
        ensures
            final(self).claimed_by(token),
            final(self).claim_spec(*old(self), token),
    {
        proof {
            lemma_first_released(self@);
        }
        let mut index: usize = 0;
        while index < self.infos.len()
            invariant
                self.infos@ == old(self)@,
                old(self).can_claim(),
                0 <= index <= self.infos@.len(),
                forall|j: int| 0 <= j < index ==> (#[trigger] self.infos@[j]).claimed(),
            decreases self.infos@.len() - index,
        {
            if !self.infos[index].claimed {
                proof {
                    lemma_first_released(self@);
                    let fr = first_released(self@);
                    if let Some(i) = fr {
                        if i < index {
                            assert(self@[i].claimed());
                        }
                        if i > index {
                            assert(self@[index as int].claimed());
                        }
                    }
                }
                let info = &mut self.infos[index];
                let version = info.claim();
                return BufferToken { index, version };
            }
            index += 1;
        }
        let index = self.infos.len();
        self.infos.push(BufferInfo::new());
        BufferToken { index, version: 0 }
    }

    /// Releases the slot that `token` holds, so that a later claim can
    /// reuse it.
    pub fn release(&mut self, token: BufferToken)
        ensures
            final(self)@.len() == old(self)@.len(),
            token.index() < old(self)@.len() ==> {
                &&& !final(self)@[token.index() as int].claimed()
                &&& final(self)@[token.index() as int].version() == old(self)@[token.index() as int].version()
            },
            forall|j: int|
                0 <= j < old(self)@.len() && j != token.index() ==> #[trigger] final(self)@[j]
                    == old(self)@[j],
    {
        if token.index < self.infos.len() {
            let info = &mut self.infos[token.index];
            info.release();
        }
    }
}

} // verus!
