//! Names for external message brokers and the topics on them; the broker
//! connection itself lives outside the core.

use vstd::prelude::*;

verus! {

/// Where a broker lives and how to authenticate against it. Two
/// descriptions are the same server when host and port agree.
#[derive(Debug)]
pub struct MqttServerInfo {
    pub host: String,
    pub port: u16,
    pub username: Option<String>,
    pub password: Option<String>,
}

impl View for MqttServerInfo {
    type V = (Seq<char>, u16);

    open spec fn view(&self) -> (Seq<char>, u16) {
        (self.host@, self.port)
    }
}

impl MqttServerInfo {
    /// Describe a broker.
    pub fn new(host: String, port: u16, username: Option<String>, password: Option<String>) -> (r:
        MqttServerInfo)
        ensures
            r@ == (host@, port),
    {
        MqttServerInfo { host, port, username, password }
    }

    /// Same server: equal host and port; credentials do not distinguish.
    pub fn same_server(&self, other: &MqttServerInfo) -> (r: bool)
        ensures
            r == (self@ == other@),
    {
        self.host == other.host && self.port == other.port
    }

    pub fn dup(&self) -> (r: MqttServerInfo)
        ensures
            r@ == self@,
    {
        MqttServerInfo {
            host: self.host.clone(),
            port: self.port,
            username: match &self.username {
                Some(u) => Some(u.clone()),
                None => None,
            },
            password: match &self.password {
                Some(p) => Some(p.clone()),
                None => None,
            },
        }
    }
}

/// A topic on a named broker.
#[derive(Debug)]
pub struct MqttTopic {
    pub topic: String,
    pub server: MqttServerInfo,
}

impl View for MqttTopic {
    type V = (Seq<char>, (Seq<char>, u16));

    open spec fn view(&self) -> (Seq<char>, (Seq<char>, u16)) {
        (self.topic@, self.server@)
    }
}

impl MqttTopic {
    pub fn new(topic: String, server: MqttServerInfo) -> (r: MqttTopic)
        ensures
            r@ == (topic@, server@),
    {
        MqttTopic { topic, server }
    }

    pub fn dup(&self) -> (r: MqttTopic)
        ensures
            r@ == self@,
    {
        MqttTopic { topic: self.topic.clone(), server: self.server.dup() }
    }
}

/// The broker worker's command bus: subscription requests and outbound
/// publications, and the shared topic of payloads arriving from brokers.
pub struct MqttBus {
    pub actions: crate::store::Topic,
    pub arrived: crate::store::Topic,
}

impl MqttBus {
    pub fn new() -> (r: MqttBus)
        ensures
            r.actions@ == Seq::<Option<Seq<crate::store::EventV>>>::empty(),
            r.arrived@ == Seq::<Option<Seq<crate::store::EventV>>>::empty(),
    {
        MqttBus { actions: crate::store::Topic::new(), arrived: crate::store::Topic::new() }
    }

    /// Ask the broker worker to subscribe to a topic.
    pub fn subscribe(&mut self, topic: MqttTopic)
        ensures
            final(self).arrived@ == old(self).arrived@,
            final(self).actions@.len() == old(self).actions@.len(),
            forall|i: int|
                0 <= i < old(self).actions@.len() ==> final(self).actions@[i] == (
                match old(self).actions@[i] {
                    Some(b) => Some(b.push(crate::store::EventV::MqttSubscribe(topic@))),
                    None => None::<Seq<crate::store::EventV>>,
                }),
    {
        self.actions.publish(crate::store::Event::MqttSubscribe(topic));
    }

    /// Publish a payload on a broker topic.
    pub fn publish(&mut self, topic: MqttTopic, value: Vec<u8>)
        ensures
            final(self).arrived@ == old(self).arrived@,
            final(self).actions@.len() == old(self).actions@.len(),
            forall|i: int|
                0 <= i < old(self).actions@.len() ==> final(self).actions@[i] == (
                match old(self).actions@[i] {
                    Some(b) => Some(b.push(crate::store::EventV::MqttPublish(topic@, value@))),
                    None => None::<Seq<crate::store::EventV>>,
                }),
    {
        self.actions.publish(crate::store::Event::MqttPublish(topic, value));
    }

    /// Subscribe to the payloads arriving from brokers.
    pub fn incoming(&mut self) -> (key: usize)
        ensures
            key == old(self).arrived@.len(),
            final(self).arrived@ == old(self).arrived@.push(
                Some(Seq::<crate::store::EventV>::empty()),
            ),
            final(self).actions@ == old(self).actions@,
    {
        self.arrived.subscribe()
    }
}

} // verus!
