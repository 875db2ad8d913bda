//! The catalog of ports that services commonly listen on, in five groups.

use vstd::prelude::*;

verus! {

/// A group of the catalog.
#[derive(Clone, Copy, Debug, PartialEq, Eq, Structural)]
pub enum PortGroup {
    /// Relational databases.
    RelationalDb,
    /// Document, column, graph and key-value stores.
    NoSqlDb,
    /// Web and application servers.
    WebAppServer,
    /// Configuration stores and cluster coordination.
    ConfigStore,
    /// Well-known protocols.
    WellKnownProtocol,
}

/// The ports of relational databases.
pub open spec fn relational_db_ports() -> Seq<u16> {
    seq![7210u16, 3306, 1521, 1830, 5432, 1433, 1434]
}

/// The ports of NoSQL databases.
pub open spec fn nosql_db_ports() -> Seq<u16> {
    seq![
        8529u16, 7000, 7001, 9042, 5984, 9200, 9300, 27017, 27018, 27019, 28017, 7473, 7474, 6379,
        8087, 8098, 8080, 28015, 29015, 7574, 8983,
    ]
}

/// The ports of web and application servers. Some ports stand more than
/// once: several servers share them.
pub open spec fn web_app_server_ports() -> Seq<u16> {
    seq![
        3528u16, 3529, 4447, 8009, 8080, 8443, 9990, 9999, 8080, 8005, 8009, 8080, 4712, 4713,
        8009, 8080, 8443, 9990, 9993, 5556, 7001, 7002, 8001, 8008, 9043, 9060, 9080, 9443,
    ]
}

/// The ports of configuration stores.
pub open spec fn config_store_ports() -> Seq<u16> {
    seq![
        8300u16, 8301, 8302, 8400, 8500, 8600, 2379, 2380, 6443, 8080, 5050, 5051, 2181, 2888,
        3888,
    ]
}

/// The ports of well-known protocols.
pub open spec fn protocol_ports() -> Seq<u16> {
    seq![
        53u16, 853, 20, 21, 989, 990, 80, 443, 143, 993, 543, 544, 749, 750, 751, 752, 753, 754,
        760, 389, 137, 138, 139, 944, 123, 530, 514, 873, 445, 161, 162, 199, 22, 23, 992, 25,
        465, 43,
    ]
}

/// The ports of one group, in the order of the catalog.
pub open spec fn group_ports(group: PortGroup) -> Seq<u16> {
    match group {
        PortGroup::RelationalDb => relational_db_ports(),
        PortGroup::NoSqlDb => nosql_db_ports(),
        PortGroup::WebAppServer => web_app_server_ports(),
        PortGroup::ConfigStore => config_store_ports(),
        PortGroup::WellKnownProtocol => protocol_ports(),
    }
}

/// The whole catalog: the five groups one after the other. A port that
/// stands in several groups, or several times in one, stands as often here.
pub open spec fn catalog_ports() -> Seq<u16> {
    relational_db_ports() + nosql_db_ports() + web_app_server_ports() + config_store_ports()
        + protocol_ports()
}

/// The ports of one group, in the order of the catalog.
pub fn ports_of(group: PortGroup) -> (v: Vec<u16>)
    ensures
        v@ == group_ports(group),
{
    let v: Vec<u16> = match group {
        PortGroup::RelationalDb => vec![7210, 3306, 1521, 1830, 5432, 1433, 1434],
        PortGroup::NoSqlDb => vec![
            8529, 7000, 7001, 9042, 5984, 9200, 9300, 27017, 27018, 27019, 28017, 7473, 7474, 6379,
            8087, 8098, 8080, 28015, 29015, 7574, 8983,
        ],
        PortGroup::WebAppServer => vec![
            3528, 3529, 4447, 8009, 8080, 8443, 9990, 9999, 8080, 8005, 8009, 8080, 4712, 4713,
            8009, 8080, 8443, 9990, 9993, 5556, 7001, 7002, 8001, 8008, 9043, 9060, 9080, 9443,
        ],
        PortGroup::ConfigStore => vec![
            8300, 8301, 8302, 8400, 8500, 8600, 2379, 2380, 6443, 8080, 5050, 5051, 2181, 2888,
            3888,
        ],
        PortGroup::WellKnownProtocol => vec![
            53, 853, 20, 21, 989, 990, 80, 443, 143, 993, 543, 544, 749, 750, 751, 752, 753, 754,
            760, 389, 137, 138, 139, 944, 123, 530, 514, 873, 445, 161, 162, 199, 22, 23, 992, 25,
            465, 43,
        ],
    };
    assert(v@ =~= group_ports(group));
    v
}

/// Appends the items of `more` to `out`.
fn extend_ports(out: &mut Vec<u16>, more: &Vec<u16>)
    ensures
        final(out)@ == old(out)@ + more@,
{
    let mut i: usize = 0;
    assert(out@ =~= old(out)@ + more@.take(0));
    while i < more.len()
        invariant
            i <= more.len(),
            out@ == old(out)@ + more@.take(i as int),
        decreases more.len() - i,
    {
        out.push(more[i]);
        i = i + 1;
        assert(out@ =~= old(out)@ + more@.take(i as int));
    }
    assert(more@.take(more.len() as int) =~= more@);
}

/// The whole catalog: the five groups one after the other.
pub fn all_ports() -> (v: Vec<u16>)
    ensures
        v@ == catalog_ports(),
{
    let mut v = ports_of(PortGroup::RelationalDb);
    extend_ports(&mut v, &ports_of(PortGroup::NoSqlDb));
    extend_ports(&mut v, &ports_of(PortGroup::WebAppServer));
    extend_ports(&mut v, &ports_of(PortGroup::ConfigStore));
    extend_ports(&mut v, &ports_of(PortGroup::WellKnownProtocol));
    v
}

} // verus!
