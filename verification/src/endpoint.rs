//! Configuration of the network endpoint.

use vstd::prelude::*;

verus! {

/// Where the endpoint listens, and how its transport is tuned.
///
/// `Q` is the configuration of the transport.
#[derive(Debug)]
pub struct IrohConfig<Q> {
    /// IPv4 address to bind to, as a big-endian number.
    pub bind_ip_v4: u32,

    /// Port to bind to on IPv4, zero picks any free one.
    pub bind_port_v4: u16,

    /// IPv6 address to bind to, as a big-endian number.
    pub bind_ip_v6: u128,

    /// Port to bind to on IPv6, zero picks any free one.
    pub bind_port_v6: u16,

    /// Configuration of the transport, `None` for its own defaults.
    pub quic_transport_config: Option<Q>,
}

impl<Q> Default for IrohConfig<Q> {
    fn default() -> (config: Self)
        ensures
            config == (IrohConfig::<Q> {
                bind_ip_v4: 0,
                bind_port_v4: 0,
                bind_ip_v6: 0,
                bind_port_v6: 0,
                quic_transport_config: None,
            }),
    {
        IrohConfig {
            bind_ip_v4: 0,
            bind_port_v4: 0,
            bind_ip_v6: 0,
            bind_port_v6: 0,
            quic_transport_config: None,
        }
    }
}

/// By default an endpoint listens on any address and any free port, and its transport has its own
/// defaults.
pub proof fn law_default_endpoint_listens_anywhere<Q>(config: IrohConfig<Q>)
    requires
        call_ensures(<IrohConfig<Q> as Default>::default, (), config),
    ensures
        config.bind_ip_v4 == 0,
        config.bind_port_v4 == 0,
        config.bind_ip_v6 == 0,
        config.bind_port_v6 == 0,
        config.quic_transport_config is None,
{
}

} // verus!
