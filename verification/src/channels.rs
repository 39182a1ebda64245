//! The channels by which memory is searched.

use vstd::prelude::*;

use crate::json::{self, Json, JsonObject, JsonTree};

verus! {

/// Which channels a search uses.
#[derive(Clone, Copy, Debug, PartialEq, Eq, Structural)]
pub struct RecallChannels {
    pub bm25: bool,
    pub vector: bool,
    pub entity: bool,
    pub state: bool,
    pub episode: bool,
    pub graph: bool,
}

#[derive(Clone, Copy, Debug, PartialEq, Eq, Structural)]
pub enum MemoryChannel {
    Bm25,
    Vector,
    Entity,
    State,
    Episode,
    Graph,
}

pub open spec fn no_channels() -> RecallChannels {
    RecallChannels {
        bm25: false,
        vector: false,
        entity: false,
        state: false,
        episode: false,
        graph: false,
    }
}

pub open spec fn all_channels() -> RecallChannels {
    RecallChannels { bm25: true, vector: true, entity: true, state: true, episode: true, graph: true }
}

pub open spec fn words_only() -> RecallChannels {
    RecallChannels { bm25: true, ..no_channels() }
}

impl RecallChannels {
    pub fn all() -> (r: Self)
        ensures
            r == all_channels(),
    {
        RecallChannels {
            bm25: true,
            vector: true,
            entity: true,
            state: true,
            episode: true,
            graph: true,
        }
    }

    pub fn bm25_only() -> (r: Self)
        ensures
            r == words_only(),
    {
        RecallChannels {
            bm25: true,
            vector: false,
            entity: false,
            state: false,
            episode: false,
            graph: false,
        }
    }

    /// At least one channel must be used.
    pub fn validate(&self) -> (r: Result<(), String>)
        ensures
            match r {
                Ok(()) => *self != no_channels(),
                Err(e) => *self == no_channels() && e@ == "至少启用一个召回通道"@,
            },
    {
        if self.bm25 || self.vector || self.entity || self.state || self.episode || self.graph {
            Ok(())
        } else {
            Err("至少启用一个召回通道".to_owned())
        }
    }
}

/// Channels with one more.
pub open spec fn with_channel(c: RecallChannels, channel: MemoryChannel) -> RecallChannels {
    match channel {
        MemoryChannel::Bm25 => RecallChannels { bm25: true, ..c },
        MemoryChannel::Vector => RecallChannels { vector: true, ..c },
        MemoryChannel::Entity => RecallChannels { entity: true, ..c },
        MemoryChannel::State => RecallChannels { state: true, ..c },
        MemoryChannel::Episode => RecallChannels { episode: true, ..c },
        MemoryChannel::Graph => RecallChannels { graph: true, ..c },
    }
}

/// Channels with the first `n` of those requested.
pub open spec fn with_channels(c: RecallChannels, v: Seq<MemoryChannel>, n: int) -> RecallChannels
    decreases n,
{
    if n <= 0 {
        c
    } else {
        with_channel(with_channels(c, v, n - 1), v[n - 1])
    }
}

/// The channels of a request: those named, or else all that there are.
pub open spec fn requested_channels(v: Seq<MemoryChannel>, memory_enabled: bool) -> RecallChannels {
    let start = if v.len() > 0 {
        no_channels()
    } else if memory_enabled {
        all_channels()
    } else {
        words_only()
    };
    with_channels(start, v, v.len() as int)
}

proof fn named_channels_are_some(v: Seq<MemoryChannel>, n: int)
    requires
        0 < n,
    ensures
        with_channels(no_channels(), v, n) != no_channels(),
    decreases n,
{
}

/// Chooses the channels of a request. Without derived memory only words can be
/// searched.
pub fn recall_channels(requested: &Vec<MemoryChannel>, memory_enabled: bool) -> (r: Result<
    RecallChannels,
    String,
>)
    ensures
        ({
            let want = requested_channels(requested@, memory_enabled);
            match r {
                Ok(c) => c == want && (memory_enabled || want == words_only()),
                Err(e) => !memory_enabled && want != words_only() && e@
                    == "memory.enabled=false only supports BM25-only recall"@,
            }
        }),
{
    let mut c = if requested.len() == 0 {
        if memory_enabled {
            RecallChannels::all()
        } else {
            RecallChannels::bm25_only()
        }
    } else {
        RecallChannels {
            bm25: false,
            vector: false,
            entity: false,
            state: false,
            episode: false,
            graph: false,
        }
    };
    let ghost start = c;
    let mut i: usize = 0;
    while i < requested.len()
        invariant
            i <= requested@.len(),
            c == with_channels(start, requested@, i as int),
        decreases requested.len() - i,
    {
        match requested[i] {
            MemoryChannel::Bm25 => c.bm25 = true,
            MemoryChannel::Vector => c.vector = true,
            MemoryChannel::Entity => c.entity = true,
            MemoryChannel::State => c.state = true,
            MemoryChannel::Episode => c.episode = true,
            MemoryChannel::Graph => c.graph = true,
        }
        i += 1;
    }
    proof {
        if requested@.len() > 0 {
            named_channels_are_some(requested@, requested@.len() as int);
        }
    }
    if let Err(e) = c.validate() {
        return Err(e);
    }
    if !memory_enabled && !(c == RecallChannels::bm25_only()) {
        return Err("memory.enabled=false only supports BM25-only recall".to_owned());
    }
    Ok(c)
}

/// The names of the channels that are used.
pub open spec fn channel_names(c: RecallChannels) -> Seq<Seq<char>> {
    let one = |used: bool, name: Seq<char>|
        if used {
            seq![name]
        } else {
            Seq::<Seq<char>>::empty()
        };
    one(c.bm25, "bm25"@) + one(c.vector, "vector"@) + one(c.entity, "entity"@) + one(
        c.state,
        "state"@,
    ) + one(c.episode, "episode"@) + one(c.graph, "graph"@)
}

/// Lists the names of the channels that are used.
pub fn enabled_channel_names(c: RecallChannels) -> (r: Vec<&'static str>)
    ensures
        json::strs(r@) == channel_names(c),
{
    let mut out: Vec<&'static str> = Vec::new();
    if c.bm25 {
        out.push("bm25");
    }
    if c.vector {
        out.push("vector");
    }
    if c.entity {
        out.push("entity");
    }
    if c.state {
        out.push("state");
    }
    if c.episode {
        out.push("episode");
    }
    if c.graph {
        out.push("graph");
    }
    assert(json::strs(out@) =~= channel_names(c));
    out
}

/// Channels in JSON, in order of their names.
pub open spec fn channels_tree(c: RecallChannels) -> JsonTree {
    JsonTree::Object(
        seq![
            ("bm25"@, JsonTree::Bool(c.bm25)),
            ("entity"@, JsonTree::Bool(c.entity)),
            ("episode"@, JsonTree::Bool(c.episode)),
            ("graph"@, JsonTree::Bool(c.graph)),
            ("state"@, JsonTree::Bool(c.state)),
            ("vector"@, JsonTree::Bool(c.vector)),
        ],
    )
}

pub fn json_channels(c: RecallChannels) -> (r: Json)
    ensures
        json::tree(r) == channels_tree(c),
{
    let object = JsonObject::new().with("bm25", Json::Bool(c.bm25)).with(
        "entity",
        Json::Bool(c.entity),
    ).with("episode", Json::Bool(c.episode)).with("graph", Json::Bool(c.graph)).with(
        "state",
        Json::Bool(c.state),
    ).with("vector", Json::Bool(c.vector));
    assert(object.list() =~= channels_tree(c)->Object_0);
    object.finish()
}

/// Whether a channel is used.
pub open spec fn uses(c: RecallChannels, channel: MemoryChannel) -> bool {
    match channel {
        MemoryChannel::Bm25 => c.bm25,
        MemoryChannel::Vector => c.vector,
        MemoryChannel::Entity => c.entity,
        MemoryChannel::State => c.state,
        MemoryChannel::Episode => c.episode,
        MemoryChannel::Graph => c.graph,
    }
}

proof fn named_channels_are_used(c: RecallChannels, v: Seq<MemoryChannel>, n: int, x: MemoryChannel)
    requires
        0 <= n <= v.len(),
    ensures
        uses(with_channels(c, v, n), x) <==> uses(c, x) || exists|k: int|
            0 <= k < n && #[trigger] v[k] == x,
    decreases n,
{
    if n > 0 {
        named_channels_are_used(c, v, n - 1, x);
        assert(v[n - 1] == v[n - 1]);
    }
}

/// A request uses exactly the channels that it names; one that names none uses
/// all, or only words where memory is off.
pub proof fn requests_use_what_they_name(
    v: Seq<MemoryChannel>,
    memory_enabled: bool,
    x: MemoryChannel,
)
    ensures
        v.len() > 0 ==> (uses(requested_channels(v, memory_enabled), x) <==> v.contains(x)),
        v.len() == 0 ==> (uses(requested_channels(v, memory_enabled), x) <==> memory_enabled || x
            == MemoryChannel::Bm25),
{
    let start = if v.len() > 0 {
        no_channels()
    } else if memory_enabled {
        all_channels()
    } else {
        words_only()
    };
    named_channels_are_used(start, v, v.len() as int, x);
}

/// As many channels are listed as are used, words first and the graph last.
pub proof fn used_channels_are_listed(c: RecallChannels)
    ensures
        channel_names(c).len() == (if c.bm25 {
            1int
        } else {
            0
        }) + (if c.vector {
            1int
        } else {
            0
        }) + (if c.entity {
            1int
        } else {
            0
        }) + (if c.state {
            1int
        } else {
            0
        }) + (if c.episode {
            1int
        } else {
            0
        }) + (if c.graph {
            1int
        } else {
            0
        }),
        c.bm25 ==> channel_names(c)[0] == "bm25"@,
        c.graph ==> channel_names(c).last() == "graph"@,
{
}

} // verus!
