//! The discovery service: the monitors it runs, the registry it keeps, and
//! what it does with each chain notification.
use vstd::prelude::*;
use crate::primitives::Address;
use crate::config::{Config, FactoryConfig};
use crate::monitors::{Monitor, UniswapV2Monitor, UniswapV3Monitor};
use crate::pool_metadata::{PoolMetadata, ProtocolType, valid_metadata};
use crate::pool_registry::{PoolRegistry, RegistryStats, pools_after_insert, order_after_insert};
use crate::selection::{protocol_is, select};

verus! {

/// The monitors that a list of factory configurations asks for, as
/// (protocol, factory) pairs in order; factories of an unknown protocol are
/// skipped.
pub open spec fn monitors_for(factories: Seq<FactoryConfig>) -> Seq<(ProtocolType, Address)>
    decreases factories.len(),
{
    if factories.len() == 0 {
        Seq::empty()
    } else {
        let rest = monitors_for(factories.drop_last());
        let f = factories.last();
        if f.protocol@ == "uniswap_v2"@ {
            rest.push((ProtocolType::UniswapV2, f.address))
        } else if f.protocol@ == "uniswap_v3"@ {
            rest.push((ProtocolType::UniswapV3, f.address))
        } else {
            rest
        }
    }
}

/// The registered pools and registration order after registering each of
/// `pools` in turn.
pub open spec fn after_inserts(
    map: Map<Address, PoolMetadata>,
    order: Seq<Address>,
    pools: Seq<PoolMetadata>,
) -> (Map<Address, PoolMetadata>, Seq<Address>)
    decreases pools.len(),
{
    if pools.len() == 0 {
        (map, order)
    } else {
        let (m, o) = after_inserts(map, order, pools.drop_last());
        (pools_after_insert(m, pools.last()), order_after_insert(m, o, pools.last()))
    }
}

/// The tip of a committed chain segment.
#[derive(Clone, Copy, Debug)]
pub struct ChainTip {
    /// Block number.
    pub number: u64,
    /// Block hash.
    pub hash: [u8; 32],
}

/// What handling a chain notification yields: the registry counts to
/// report, and the height to report as finished, when a chain was
/// committed.
#[derive(Clone, Copy, Debug)]
pub struct NotificationOutcome {
    /// Registry counts at the time of the notification.
    pub stats: Option<RegistryStats>,
    /// The committed tip to report as processed.
    pub finished_height: Option<ChainTip>,
}

/// The pool discovery service.
pub struct PoolDiscoveryExEx {
    config: Config,
    registry: PoolRegistry,
    monitors: Vec<Monitor>,
}

impl PoolDiscoveryExEx {
    /// The service's invariant: its registry is well formed.
    pub closed spec fn wf(&self) -> bool {
        self.registry.wf()
    }

    /// The registry the service keeps.
    pub closed spec fn spec_registry(&self) -> PoolRegistry {
        self.registry
    }

    /// The monitors the service runs, as (protocol, factory) pairs.
    pub closed spec fn monitor_view(&self) -> Seq<(ProtocolType, Address)> {
        self.monitors@.map_values(|m: Monitor| (m.spec_protocol(), m.spec_factory_address()))
    }

    /// A service for `config`: an empty registry, and one monitor per
    /// configured factory of a known protocol, in order.
    pub fn new(config: Config) -> (r: Self)
        ensures
            r.wf(),
            r.spec_registry().pool_map() == Map::<Address, PoolMetadata>::empty(),
            r.spec_registry().insertion_order() == Seq::<Address>::empty(),
            r.monitor_view() == monitors_for(config.factories@),
            forall|k: int|
                0 <= k < r.monitor_view().len() ==> exists|j: int|
                    0 <= j < config.factories@.len() && ((config.factories@[j].protocol@
                        == "uniswap_v2"@ && #[trigger] r.monitor_view()[k] == (
                        ProtocolType::UniswapV2,
                        config.factories@[j].address,
                    )) || (config.factories@[j].protocol@ == "uniswap_v3"@ && r.monitor_view()[k]
                        == (ProtocolType::UniswapV3, config.factories@[j].address))),
            forall|j: int|
                0 <= j < config.factories@.len() && (#[trigger] config.factories@[j]).protocol@
                    == "uniswap_v2"@ ==> r.monitor_view().contains(
                    (ProtocolType::UniswapV2, config.factories@[j].address),
                ),
            forall|j: int|
                0 <= j < config.factories@.len() && (#[trigger] config.factories@[j]).protocol@
                    == "uniswap_v3"@ ==> r.monitor_view().contains(
                    (ProtocolType::UniswapV3, config.factories@[j].address),
                ),
    {
        let registry = PoolRegistry::new();
        let mut monitors: Vec<Monitor> = Vec::new();
        let v2 = "uniswap_v2".to_owned();
        let v3 = "uniswap_v3".to_owned();
        let mut i: usize = 0;
        proof {
            assert(config.factories@.subrange(0, 0) =~= Seq::<FactoryConfig>::empty());
        }
        while i < config.factories.len()
            invariant
                i <= config.factories@.len(),
                v2@ == "uniswap_v2"@,
                v3@ == "uniswap_v3"@,
                monitors@.map_values(|m: Monitor| (m.spec_protocol(), m.spec_factory_address()))
                    == monitors_for(config.factories@.subrange(0, i as int)),
            decreases config.factories@.len() - i,
        {
            let ghost before = monitors@;
            let factory = &config.factories[i];
            if factory.protocol == v2 {
                monitors.push(Monitor::UniswapV2(UniswapV2Monitor::new(factory.address)));
            } else if factory.protocol == v3 {
                monitors.push(Monitor::UniswapV3(UniswapV3Monitor::new(factory.address)));
            }
            proof {
                let pre = config.factories@.subrange(0, i + 1);
                assert(pre.drop_last() =~= config.factories@.subrange(0, i as int));
                assert(pre.last() == config.factories@[i as int]);
                assert(monitors@.map_values(|m: Monitor| (m.spec_protocol(), m.spec_factory_address()))
                    =~= monitors_for(pre));
            }
            i = i + 1;
        }
        proof {
            assert(config.factories@.subrange(0, config.factories@.len() as int) =~= config.factories@);
            lemma_monitors_for_factories(config.factories@);
        }
        PoolDiscoveryExEx { config, registry, monitors }
    }

    /// The registry the service keeps.
    pub fn registry(&self) -> (r: &PoolRegistry)
        requires
            self.wf(),
        ensures
            *r == self.spec_registry(),
            r.wf(),
    {
        &self.registry
    }

    /// The monitors the service runs.
    pub fn monitors(&self) -> (r: &Vec<Monitor>)
        ensures
            r@.map_values(|m: Monitor| (m.spec_protocol(), m.spec_factory_address()))
                == self.monitor_view(),
    {
        &self.monitors
    }

    /// Registers pools loaded from the persistent store, in order; pools
    /// that fail validation are skipped, as are addresses already
    /// registered.
    pub fn load_pools(&mut self, pools: Vec<PoolMetadata>)
        requires
            old(self).wf(),
        ensures
            final(self).wf(),
            (final(self).spec_registry().pool_map(), final(self).spec_registry().insertion_order())
                == after_inserts(
                old(self).spec_registry().pool_map(),
                old(self).spec_registry().insertion_order(),
                pools@,
            ),
            final(self).monitor_view() == old(self).monitor_view(),
            forall|a: Address|
                #[trigger] old(self).spec_registry().pool_map().contains_key(a) ==> final(self).spec_registry().pool_map().contains_key(a) && final(self).spec_registry().pool_map()[a]
                    == old(self).spec_registry().pool_map()[a],
            forall|i: int|
                0 <= i < pools@.len() && valid_metadata(#[trigger] pools@[i]) ==> final(self).spec_registry().pool_map().contains_key(pools@[i].pool_address),
            forall|a: Address|
                #[trigger] final(self).spec_registry().pool_map().contains_key(a) ==> old(self).spec_registry().pool_map().contains_key(a) || exists|i: int|
                    0 <= i < pools@.len() && valid_metadata(#[trigger] pools@[i])
                        && pools@[i].pool_address == a && final(self).spec_registry().pool_map()[a]
                        == pools@[i],
    {
        let mut i: usize = 0;
        proof {
            assert(pools@.subrange(0, 0) =~= Seq::<PoolMetadata>::empty());
        }
        while i < pools.len()
            invariant
                self.wf(),
                i <= pools@.len(),
                self.monitor_view() == old(self).monitor_view(),
                (self.registry.pool_map(), self.registry.insertion_order()) == after_inserts(
                    old(self).spec_registry().pool_map(),
                    old(self).spec_registry().insertion_order(),
                    pools@.subrange(0, i as int),
                ),
            decreases pools@.len() - i,
        {
            let _ = self.registry.insert(pools[i]);
            proof {
                let pre = pools@.subrange(0, i + 1);
                assert(pre.drop_last() =~= pools@.subrange(0, i as int));
                assert(pre.last() == pools@[i as int]);
            }
            i = i + 1;
        }
        proof {
            assert(pools@.subrange(0, pools@.len() as int) =~= pools@);
            lemma_after_inserts_registers(
                old(self).spec_registry().pool_map(),
                old(self).spec_registry().insertion_order(),
                pools@,
            );
        }
    }

    /// Handles a chain notification: when it commits a chain segment, the
    /// registry counts are reported and the segment's tip is the height to
    /// report as processed; otherwise there is nothing to do.
    pub fn process_notification(&self, committed_tip: Option<ChainTip>) -> (r: NotificationOutcome)
        requires
            self.wf(),
        ensures
            committed_tip is None ==> r.stats is None && r.finished_height is None,
            committed_tip is Some ==> r.finished_height == committed_tip && (r.stats matches Some(s)
                && s.total_pools == self.spec_registry().pool_map().len()
                && s.uniswap_v2_pools == self.spec_registry().spec_pools_by_protocol(
                ProtocolType::UniswapV2,
            ).len() && s.uniswap_v3_pools == self.spec_registry().spec_pools_by_protocol(
                ProtocolType::UniswapV3,
            ).len()),
    {
        match committed_tip {
            None => NotificationOutcome { stats: None, finished_height: None },
            Some(tip) => {
                let stats = self.registry.stats();
                NotificationOutcome { stats: Some(stats), finished_height: Some(tip) }
            },
        }
    }
}

/// Each monitor comes from a configured factory of a known protocol and
/// watches that factory's address with that protocol; each such factory gets
/// a monitor; factories of an unknown protocol get none.
pub proof fn lemma_monitors_for_factories(fs: Seq<FactoryConfig>)
    ensures
        monitors_for(fs).len() <= fs.len(),
        forall|k: int|
            0 <= k < monitors_for(fs).len() ==> exists|j: int|
                0 <= j < fs.len() && ((fs[j].protocol@ == "uniswap_v2"@ && #[trigger] monitors_for(
                    fs,
                )[k] == (ProtocolType::UniswapV2, fs[j].address)) || (fs[j].protocol@
                    == "uniswap_v3"@ && monitors_for(fs)[k] == (
                    ProtocolType::UniswapV3,
                    fs[j].address,
                ))),
        forall|j: int|
            0 <= j < fs.len() && (#[trigger] fs[j]).protocol@ == "uniswap_v2"@ ==> monitors_for(
                fs,
            ).contains((ProtocolType::UniswapV2, fs[j].address)),
        forall|j: int|
            0 <= j < fs.len() && (#[trigger] fs[j]).protocol@ == "uniswap_v3"@ ==> monitors_for(
                fs,
            ).contains((ProtocolType::UniswapV3, fs[j].address)),
        (forall|j: int|
            0 <= j < fs.len() ==> (#[trigger] fs[j]).protocol@ != "uniswap_v2"@ && fs[j].protocol@
                != "uniswap_v3"@) ==> monitors_for(fs).len() == 0,
    decreases fs.len(),
{
    reveal_strlit("uniswap_v2");
    reveal_strlit("uniswap_v3");
    assert("uniswap_v2"@[9] != "uniswap_v3"@[9]);
    if fs.len() > 0 {
        let init = fs.drop_last();
        let n = fs.len() - 1;
        lemma_monitors_for_factories(init);
        let rest = monitors_for(init);
        let mf = monitors_for(fs);
        let f = fs.last();
        assert(f == fs[n]);
        assert forall|j: int| 0 <= j < init.len() implies init[j] == fs[j] by {}
        assert forall|k: int| 0 <= k < rest.len() implies mf[k] == rest[k] by {}
        assert forall|k: int| 0 <= k < mf.len() implies exists|j: int|
            0 <= j < fs.len() && ((fs[j].protocol@ == "uniswap_v2"@ && #[trigger] mf[k] == (
                ProtocolType::UniswapV2,
                fs[j].address,
            )) || (fs[j].protocol@ == "uniswap_v3"@ && mf[k] == (
                ProtocolType::UniswapV3,
                fs[j].address,
            ))) by {
            if k < rest.len() {
                assert(rest[k] == mf[k]);
                let j = choose|j: int|
                    0 <= j < init.len() && ((init[j].protocol@ == "uniswap_v2"@ && #[trigger] rest[k]
                        == (ProtocolType::UniswapV2, init[j].address)) || (init[j].protocol@
                        == "uniswap_v3"@ && rest[k] == (ProtocolType::UniswapV3, init[j].address)));
                assert(init[j] == fs[j]);
            } else {
                assert(fs[n] == f);
            }
        }
        assert forall|j: int|
            0 <= j < fs.len() && (#[trigger] fs[j]).protocol@ == "uniswap_v2"@ implies mf.contains(
            (ProtocolType::UniswapV2, fs[j].address),
        ) by {
            if j < n {
                assert(init[j] == fs[j]);
                let k = choose|k: int|
                    0 <= k < rest.len() && rest[k] == (ProtocolType::UniswapV2, init[j].address);
                assert(mf[k] == rest[k]);
            } else {
                assert(mf[rest.len() as int] == (ProtocolType::UniswapV2, f.address));
            }
        }
        assert forall|j: int|
            0 <= j < fs.len() && (#[trigger] fs[j]).protocol@ == "uniswap_v3"@ implies mf.contains(
            (ProtocolType::UniswapV3, fs[j].address),
        ) by {
            if j < n {
                assert(init[j] == fs[j]);
                let k = choose|k: int|
                    0 <= k < rest.len() && rest[k] == (ProtocolType::UniswapV3, init[j].address);
                assert(mf[k] == rest[k]);
            } else {
                assert(f.protocol@ != "uniswap_v2"@);
                assert(mf[rest.len() as int] == (ProtocolType::UniswapV3, f.address));
            }
        }
        if forall|j: int|
            0 <= j < fs.len() ==> (#[trigger] fs[j]).protocol@ != "uniswap_v2"@ && fs[j].protocol@
                != "uniswap_v3"@ {
            assert forall|j: int| 0 <= j < init.len() implies (#[trigger] init[j]).protocol@
                != "uniswap_v2"@ && init[j].protocol@ != "uniswap_v3"@ by {
                assert(init[j] == fs[j]);
            }
            assert(fs[n].protocol@ != "uniswap_v2"@);
        }
    }
}

/// Loading pools keeps every pool already registered, registers every valid
/// pool of the list, and registers nothing else: each pool registered
/// afterwards was registered before or is a valid pool of the list, held
/// under its own address.
pub proof fn lemma_after_inserts_registers(
    map: Map<Address, PoolMetadata>,
    order: Seq<Address>,
    pools: Seq<PoolMetadata>,
)
    ensures
        forall|a: Address|
            #[trigger] map.contains_key(a) ==> after_inserts(map, order, pools).0.contains_key(a)
                && after_inserts(map, order, pools).0[a] == map[a],
        forall|i: int|
            0 <= i < pools.len() && valid_metadata(#[trigger] pools[i]) ==> after_inserts(
                map,
                order,
                pools,
            ).0.contains_key(pools[i].pool_address),
        forall|a: Address|
            #[trigger] after_inserts(map, order, pools).0.contains_key(a) ==> map.contains_key(a)
                || exists|i: int|
                0 <= i < pools.len() && valid_metadata(#[trigger] pools[i]) && pools[i].pool_address
                    == a && after_inserts(map, order, pools).0[a] == pools[i],
    decreases pools.len(),
{
    if pools.len() > 0 {
        let init = pools.drop_last();
        lemma_after_inserts_registers(map, order, init);
        let m0 = after_inserts(map, order, init).0;
        let m1 = after_inserts(map, order, pools).0;
        let p = pools.last();
        let n = pools.len() - 1;
        assert(p == pools[n]);
        lemma_insert_keeps(m0, p);
        assert forall|i: int| 0 <= i < pools.len() && valid_metadata(#[trigger] pools[i]) implies m1.contains_key(
            pools[i].pool_address,
        ) by {
            if i < n {
                assert(init[i] == pools[i]);
            }
        }
        assert forall|a: Address| #[trigger] m1.contains_key(a) implies map.contains_key(a)
            || exists|i: int|
            0 <= i < pools.len() && valid_metadata(#[trigger] pools[i]) && pools[i].pool_address == a
                && m1[a] == pools[i] by {
            if m0.contains_key(a) {
                if !map.contains_key(a) {
                    let i = choose|i: int|
                        0 <= i < init.len() && valid_metadata(#[trigger] init[i])
                            && init[i].pool_address == a && m0[a] == init[i];
                    assert(init[i] == pools[i]);
                }
            } else {
                assert(m1[a] == pools[n]);
            }
        }
    }
}

/// Registering keeps the registered pools, and registers a valid pool.
proof fn lemma_insert_keeps(m: Map<Address, PoolMetadata>, p: PoolMetadata)
    ensures
        forall|a: Address|
            #[trigger] m.contains_key(a) ==> pools_after_insert(m, p).contains_key(a)
                && pools_after_insert(m, p)[a] == m[a],
        valid_metadata(p) ==> pools_after_insert(m, p).contains_key(p.pool_address),
        forall|a: Address|
            #[trigger] pools_after_insert(m, p).contains_key(a) && !m.contains_key(a) ==> a
                == p.pool_address && valid_metadata(p) && pools_after_insert(m, p)[a] == p,
{
}

} // verus!
