use vstd::prelude::*;

use crate::config::{contains_name, names_unique};
use crate::config_types::{InetType, SocketType};
use crate::parse::{spec_build, spec_build_services, spec_build_step, spec_defaults, ItemG};
use crate::service::{
    empty_options, spec_collect, spec_finalize, spec_merge, CollectErr, OptionModel, ServiceG,
};

verus! {

/// The service blocks of an item list, in text order.
pub open spec fn service_blocks(items: Seq<ItemG>) -> Seq<ItemG>
    decreases items.len(),
{
    if items.len() == 0 {
        Seq::empty()
    } else {
        match items[0] {
            ItemG::ServiceBlock { .. } => seq![items[0]] + service_blocks(items.drop_first()),
            ItemG::DefaultBlock { .. } => service_blocks(items.drop_first()),
        }
    }
}

/// The whole file's default options, where they read cleanly.
pub open spec fn defaults_of(items: Seq<ItemG>) -> OptionModel {
    spec_defaults(items, empty_options())->Ok_0
}

/// The options the `k`-th service block sets on its own.
pub open spec fn own_options(items: Seq<ItemG>, k: int) -> OptionModel {
    spec_collect(empty_options(), service_blocks(items)[k]->ServiceBlock_body)->Ok_0
}

/// What holds of every service a build yields: the `k`-th service is
/// exactly the `k`-th service block's own options, filled from the
/// file's defaults and made final, under that block's name.
proof fn lemma_build_services_struct(
    items: Seq<ItemG>,
    d: OptionModel,
    acc: Seq<ServiceG>,
    svcs: Seq<ServiceG>,
)
    requires
        spec_build_services(items, d, acc) == Ok::<Seq<ServiceG>, crate::parse::BuildErr>(svcs),
    ensures
        svcs.len() == acc.len() + service_blocks(items).len(),
        forall|k: int| 0 <= k < acc.len() ==> svcs[k] == acc[k],
        forall|k: int|
            0 <= k < service_blocks(items).len() ==> {
                let it = #[trigger] service_blocks(items)[k];
                &&& it is ServiceBlock
                &&& spec_collect(empty_options(), it->ServiceBlock_body) is Ok
                &&& spec_finalize(
                    spec_merge(
                        spec_collect(empty_options(), it->ServiceBlock_body)->Ok_0,
                        d,
                    ),
                    it->ServiceBlock_name,
                ) is Ok
                &&& svcs[acc.len() + k] == spec_finalize(
                    spec_merge(
                        spec_collect(empty_options(), it->ServiceBlock_body)->Ok_0,
                        d,
                    ),
                    it->ServiceBlock_name,
                )->Ok_0
            },
    decreases items.len(),
{
    if items.len() == 0 {
    } else {
        match spec_build_step(acc, d, items[0]) {
            Err(_) => {},
            Ok(acc2) => {
                lemma_build_services_struct(items.drop_first(), d, acc2, svcs);
                match items[0] {
                    ItemG::ServiceBlock { .. } => {
                        assert(service_blocks(items) =~= seq![items[0]] + service_blocks(
                            items.drop_first(),
                        ));
                        let sb = service_blocks(items);
                        let sbr = service_blocks(items.drop_first());
                        assert forall|k: int| 0 <= k < sb.len() implies {
                            let it = #[trigger] sb[k];
                            &&& it is ServiceBlock
                            &&& spec_collect(empty_options(), it->ServiceBlock_body) is Ok
                            &&& spec_finalize(
                                spec_merge(
                                    spec_collect(empty_options(), it->ServiceBlock_body)->Ok_0,
                                    d,
                                ),
                                it->ServiceBlock_name,
                            ) is Ok
                            &&& svcs[acc.len() + k] == spec_finalize(
                                spec_merge(
                                    spec_collect(empty_options(), it->ServiceBlock_body)->Ok_0,
                                    d,
                                ),
                                it->ServiceBlock_name,
                            )->Ok_0
                        } by {
                            if k == 0 {
                                assert(sb[0] == items[0]);
                                assert(svcs[acc.len() as int] == acc2[acc.len() as int]);
                            } else {
                                assert(sb[k] == sbr[k - 1]);
                                assert(svcs[acc2.len() + (k - 1)] == svcs[acc.len() + k]);
                            }
                        }
                    },
                    ItemG::DefaultBlock { .. } => {
                        assert(service_blocks(items) =~= service_blocks(items.drop_first()));
                    },
                }
            },
        }
    }
}

proof fn lemma_build_services_unique(
    items: Seq<ItemG>,
    d: OptionModel,
    acc: Seq<ServiceG>,
    svcs: Seq<ServiceG>,
)
    requires
        spec_build_services(items, d, acc) == Ok::<Seq<ServiceG>, crate::parse::BuildErr>(svcs),
        names_unique(acc),
    ensures
        names_unique(svcs),
    decreases items.len(),
{
    if items.len() == 0 {
    } else {
        match spec_build_step(acc, d, items[0]) {
            Err(_) => {},
            Ok(acc2) => {
                match items[0] {
                    ItemG::ServiceBlock { name, body, .. } => {
                        assert(!contains_name(acc, name));
                        assert forall|i: int, j: int|
                            0 <= i < j < acc2.len() implies acc2[i].name != acc2[j].name by {
                            if j == acc2.len() - 1 {
                                assert(acc2[j].name == name);
                                assert(!(0 <= i < acc.len() && acc[i].name == name));
                            }
                        }
                    },
                    ItemG::DefaultBlock { .. } => {},
                }
                lemma_build_services_unique(items.drop_first(), d, acc2, svcs);
            },
        }
    }
}

/// Law: in a configuration a build yields, no two services share one
/// name.
pub proof fn lemma_build_names_unique(items: Seq<ItemG>, svcs: Seq<ServiceG>)
    requires
        spec_build(items) == Ok::<Seq<ServiceG>, crate::parse::BuildErr>(svcs),
    ensures
        names_unique(svcs),
{
    match spec_defaults(items, empty_options()) {
        Err(_) => {},
        Ok(d) => {
            lemma_build_services_unique(items, d, Seq::empty(), svcs);
        },
    }
}

/// Law: the services a build yields stand in the order of their blocks
/// in the text, one per service block, under their blocks' names.
pub proof fn lemma_build_order(items: Seq<ItemG>, svcs: Seq<ServiceG>)
    requires
        spec_build(items) == Ok::<Seq<ServiceG>, crate::parse::BuildErr>(svcs),
    ensures
        svcs.len() == service_blocks(items).len(),
        forall|k: int|
            0 <= k < svcs.len() ==> svcs[k].name == #[trigger] service_blocks(
                items,
            )[k]->ServiceBlock_name,
{
    match spec_defaults(items, empty_options()) {
        Err(_) => {},
        Ok(d) => {
            lemma_build_services_struct(items, d, Seq::empty(), svcs);
        },
    }
}

/// Law: every optional option with a hard default that neither the
/// service block nor the default block sets comes out as that hard
/// default — TCP, IPv4, no arguments — and the purely optional options
/// stay unset.
pub proof fn lemma_hard_defaults(items: Seq<ItemG>, svcs: Seq<ServiceG>, k: int)
    requires
        spec_build(items) == Ok::<Seq<ServiceG>, crate::parse::BuildErr>(svcs),
        0 <= k < svcs.len(),
    ensures
        ({
            let m = spec_merge(own_options(items, k), defaults_of(items));
            &&& (m.socket_type is None ==> svcs[k].socket_type == SocketType::Tcp)
            &&& (m.inet_type is None ==> svcs[k].inet_type == InetType::Ipv4)
            &&& (m.server_args is None ==> svcs[k].server_args == Seq::<Seq<char>>::empty())
            &&& (m.uid is None ==> svcs[k].uid is None)
            &&& (m.listen_address is None ==> svcs[k].listen_address is None)
        }),
{
    match spec_defaults(items, empty_options()) {
        Err(_) => {},
        Ok(d) => {
            lemma_build_services_struct(items, d, Seq::empty(), svcs);
        },
    }
}

/// Law: an option the file's defaults set flows into every service
/// whose own block leaves it unset.
pub proof fn lemma_default_flows(items: Seq<ItemG>, svcs: Seq<ServiceG>, k: int)
    requires
        spec_build(items) == Ok::<Seq<ServiceG>, crate::parse::BuildErr>(svcs),
        0 <= k < svcs.len(),
    ensures
        ({
            let d = defaults_of(items);
            let m = own_options(items, k);
            &&& (m.uid is None ==> svcs[k].uid == d.uid)
            &&& (m.listen_address is None ==> svcs[k].listen_address == d.listen_address)
            &&& (m.server is None && d.server is Some ==> svcs[k].server == d.server->Some_0)
            &&& (m.port is None && d.port is Some ==> svcs[k].port == d.port->Some_0)
            &&& (m.socket_type is None && d.socket_type is Some ==> svcs[k].socket_type
                == d.socket_type->Some_0)
            &&& (m.inet_type is None && d.inet_type is Some ==> svcs[k].inet_type
                == d.inet_type->Some_0)
            &&& (m.server_args is None && d.server_args is Some ==> svcs[k].server_args
                == d.server_args->Some_0)
        }),
{
    match spec_defaults(items, empty_options()) {
        Err(_) => {},
        Ok(d) => {
            lemma_build_services_struct(items, d, Seq::empty(), svcs);
        },
    }
}

/// Law: with exactly one default block in the text, the file's defaults
/// are exactly what that block's body reads as.
pub proof fn lemma_single_default(items: Seq<ItemG>, j: int, d: OptionModel)
    requires
        0 <= j < items.len(),
        items[j] is DefaultBlock,
        forall|i: int| 0 <= i < items.len() && i != j ==> items[i] is ServiceBlock,
        spec_collect(empty_options(), items[j]->DefaultBlock_body) == Ok::<
            OptionModel,
            CollectErr,
        >(d),
    ensures
        spec_defaults(items, empty_options()) == Ok::<OptionModel, CollectErr>(d),
    decreases items.len(),
{
    lemma_defaults_skip(items, empty_options(), j, d);
}

proof fn lemma_defaults_skip(items: Seq<ItemG>, m: OptionModel, j: int, d: OptionModel)
    requires
        0 <= j < items.len(),
        items[j] is DefaultBlock,
        forall|i: int| 0 <= i < items.len() && i != j ==> items[i] is ServiceBlock,
        spec_collect(empty_options(), items[j]->DefaultBlock_body) == Ok::<
            OptionModel,
            CollectErr,
        >(d),
    ensures
        spec_defaults(items, m) == Ok::<OptionModel, CollectErr>(d),
    decreases items.len(),
{
    if j == 0 {
        lemma_defaults_all_services(items.drop_first(), d);
    } else {
        lemma_defaults_skip(items.drop_first(), m, j - 1, d);
    }
}

proof fn lemma_defaults_all_services(items: Seq<ItemG>, m: OptionModel)
    requires
        forall|i: int| 0 <= i < items.len() ==> items[i] is ServiceBlock,
    ensures
        spec_defaults(items, m) == Ok::<OptionModel, CollectErr>(m),
    decreases items.len(),
{
    if items.len() > 0 {
        lemma_defaults_all_services(items.drop_first(), m);
    }
}

} // verus!
