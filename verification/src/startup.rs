//! Starting the component: what is launched, what is skipped, and what is fatal.

use vstd::prelude::*;

use crate::config::{DeviceMode, GlobalConfig};
use crate::eip::tls::{SecurityConfig, SecurityMode};
use crate::json::Json;
use crate::lifecycle::{DeviceRegistry, DeviceRuntime};
use crate::reconnect::UnknownAdapter;
use crate::reload::{
    candidates, parse_instances, parsed, skipped_among, skips, valid_among, ParsedInstance,
    SkippedInstance,
};
use crate::text::{join2, owned};
use crate::transaction::{generation, PriorGeneration, ReloadCoordinator};

verus! {

/// A component that is about to start.
#[derive(Debug)]
pub struct App<C, T> {
    pub global: GlobalConfig,
    /// The instances to launch.
    pub devices: Vec<ParsedInstance<C>>,
    /// The instances that could not be parsed.
    pub skipped: Vec<SkippedInstance>,
    /// What runs.
    pub registry: DeviceRegistry<C, T>,
    pub coordinator: ReloadCoordinator,
}

impl<C, T> App<C, T> {
    /// Prepare a start from a document: the same instances a change would run. A malformed component
    /// block is fatal, and so is a document with no instance that can be run.
    pub fn new(
        raw: &Json,
        global: Result<GlobalConfig, String>,
        outcomes: Vec<Result<C, String>>,
    ) -> (r: Result<App<C, T>, String>)
        requires
            outcomes@.len() == candidates(raw@).len(),
        ensures
            match global {
                Err(e) => r matches Err(why) && why@ == "invalid component.global: "@ + e@,
                Ok(g) => {
                    let valid = valid_among(candidates(raw@), outcomes@, outcomes@.len());
                    if valid.len() == 0 {
                        r matches Err(why) && why@ == "no valid devices in component.instances[]"@
                    } else {
                        r matches Ok(app) && {
                            &&& app.global == g
                            &&& parsed(app.devices@) == valid
                            &&& skips(app.skipped@) == skipped_among(
                                candidates(raw@),
                                outcomes@,
                                outcomes@.len(),
                            )
                            &&& app.registry.devices@.len() == 0
                            &&& app.registry.global == Some(g)
                            &&& !app.coordinator.started
                            &&& app.coordinator.prior@ == generation(raw@, g)
                        }
                    }
                },
            },
    {
        let g = match global {
            Ok(g) => g,
            Err(e) => {
                return Err(join2("invalid component.global: ", e.as_str()));
            },
        };
        let (devices, skipped) = parse_instances(raw, outcomes);
        assert(parsed(devices@).len() == devices@.len());
        if devices.len() == 0 {
            return Err(owned("no valid devices in component.instances[]"));
        }
        let mut registry = DeviceRegistry::new();
        registry.set_global(g);
        let coordinator = ReloadCoordinator::new(PriorGeneration::of(raw, g));
        Ok(App { global: g, devices, skipped, registry, coordinator })
    }

    /// Register what was launched, then allow changes. What started is registered also when
    /// the start failed, so that the teardown reaches it; no change is allowed then.
    pub fn start_instances(
        &mut self,
        launched: Vec<DeviceRuntime<C, T>>,
        fatal: Option<String>,
    ) -> (r: Result<(), String>)
        ensures
            final(self).registry.devices@ == old(self).registry.devices@ + launched@,
            final(self).registry.global == old(self).registry.global,
            match fatal {
                Some(e) => r matches Err(why) && why == e && final(self).coordinator == old(
                    self,
                ).coordinator,
                None => r is Ok && final(self).coordinator == (ReloadCoordinator {
                    started: true,
                    ..old(self).coordinator
                }),
            },
            *final(self) == (App {
                registry: final(self).registry,
                coordinator: final(self).coordinator,
                ..*old(self)
            }),
    {
        let mut rest = launched;
        let ghost whole = rest@;
        let ghost before = self.registry.devices@;
        let ghost mut n: nat = 0;
        assert(before + whole.take(0) =~= before);
        while rest.len() > 0
            invariant
                n <= whole.len(),
                rest@ == whole.skip(n as int),
                self.registry.devices@ == before + whole.take(n as int),
                self.registry.global == old(self).registry.global,
                *self == (App { registry: self.registry, ..*old(self) }),
            decreases rest@.len(),
        {
            let one = rest.remove(0);
            self.registry.insert(one);
            proof {
                assert(one == whole[n as int]);
                assert((before + whole.take(n as int)).push(one) =~= before + whole.take(
                    n as int + 1,
                ));
                assert(whole.skip(n as int).remove(0) =~= whole.skip(n as int + 1));
                n = n + 1;
            }
        }
        assert(whole.take(n as int) =~= whole);
        match fatal {
            Some(e) => Err(e),
            None => {
                self.coordinator.started = true;
                Ok(())
            },
        }
    }
}

/// Why an instance was not launched.
#[derive(Debug)]
pub enum LaunchRefusal {
    /// Nothing implements its adapter: a defect of that instance alone.
    Adapter(UnknownAdapter),
    /// It could not be built.
    Other(String),
}

impl LaunchRefusal {
    pub open spec fn text(self) -> Seq<char> {
        match self {
            LaunchRefusal::Adapter(u) => u.text(),
            LaunchRefusal::Other(why) => why@,
        }
    }

    pub fn message(&self) -> (r: String)
        ensures
            r@ == self.text(),
    {
        match self {
            LaunchRefusal::Adapter(u) => u.message(),
            LaunchRefusal::Other(why) => owned(why.as_str()),
        }
    }

    /// Whether an adapter that nothing implements is the cause.
    pub fn is_unknown_adapter(&self) -> (r: bool)
        ensures
            r == (self is Adapter),
    {
        matches!(self, LaunchRefusal::Adapter(_))
    }
}

/// The launches of a start, one after the other.
#[derive(Debug)]
pub struct StartupLaunch<C, T> {
    pub launched: Vec<DeviceRuntime<C, T>>,
    pub skipped: Vec<SkippedInstance>,
    /// Why the start fails, if it does.
    pub fatal: Option<String>,
}

impl<C, T> StartupLaunch<C, T> {
    /// Before the first launch.
    pub fn new() -> (r: StartupLaunch<C, T>)
        ensures
            r.launched@.len() == 0,
            r.skipped@.len() == 0,
            r.fatal is None,
    {
        StartupLaunch { launched: Vec::new(), skipped: Vec::new(), fatal: None }
    }

    /// Take in how the launch of an instance went, and say whether to go on with the next one. An adapter
    /// that nothing implements costs its instance; any other failure is fatal, and nothing is launched
    /// after it.
    pub fn took(&mut self, id: &str, outcome: Result<DeviceRuntime<C, T>, LaunchRefusal>) -> (go_on: bool)
        ensures
            match outcome {
                Ok(rt) => {
                    &&& go_on
                    &&& final(self).launched@ == old(self).launched@.push(rt)
                    &&& final(self).skipped == old(self).skipped
                    &&& final(self).fatal == old(self).fatal
                },
                Err(LaunchRefusal::Adapter(u)) => {
                    &&& go_on
                    &&& final(self).launched == old(self).launched
                    &&& skips(final(self).skipped@) == skips(old(self).skipped@).push((id@, u.text()))
                    &&& final(self).fatal == old(self).fatal
                },
                Err(LaunchRefusal::Other(why)) => {
                    &&& !go_on
                    &&& final(self).launched == old(self).launched
                    &&& final(self).skipped == old(self).skipped
                    &&& final(self).fatal matches Some(e) && e@ == why@
                },
            },
    {
        match outcome {
            Ok(rt) => {
                self.launched.push(rt);
                true
            },
            Err(e) => if e.is_unknown_adapter() {
                let reason = e.message();
                let ghost before = self.skipped@;
                self.skipped.push(SkippedInstance { id: owned(id), reason });
                assert(skips(self.skipped@) =~= skips(before).push((id@, reason@)));
                true
            } else {
                self.fatal = Some(e.message());
                false
            },
        }
    }

    /// No launch is left. A start of which nothing runs fails.
    pub fn finished(&mut self)
        ensures
            final(self).launched == old(self).launched,
            final(self).skipped == old(self).skipped,
            match old(self).fatal {
                Some(_) => final(self).fatal == old(self).fatal,
                None => if old(self).launched@.len() == 0 {
                    final(self).fatal matches Some(e) && e@ == "no configured device could be launched"@
                } else {
                    final(self).fatal is None
                },
            },
    {
        if self.fatal.is_none() && self.launched.len() == 0 {
            self.fatal = Some(owned("no configured device could be launched"));
        }
    }
}

/// Whether an instance gets a certificate lifecycle of its own: a poll instance over TLS.
pub open spec fn tls_poll_instance(
    mode: DeviceMode,
    security: Result<Option<SecurityConfig>, String>,
) -> bool {
    &&& mode != DeviceMode::Push
    &&& security matches Ok(Some(s)) && s.mode == SecurityMode::Tls
}

/// Whether an instance gets a certificate lifecycle of its own.
pub fn tls_poll(mode: DeviceMode, security: &Result<Option<SecurityConfig>, String>) -> (r: bool)
    ensures
        r == tls_poll_instance(mode, *security),
{
    if mode == DeviceMode::Push {
        return false;
    }
    match security {
        Ok(Some(s)) => s.is_tls(),
        _ => false,
    }
}

/// An instance gets a certificate lifecycle of its own exactly when it is polled and its security block,
/// which is well formed, asks for TLS.
pub proof fn a_certificate_is_looked_after_where_tls_is_polled(
    mode: DeviceMode,
    security: Result<Option<SecurityConfig>, String>,
)
    ensures
        mode is Push ==> !tls_poll_instance(mode, security),
        security is Err ==> !tls_poll_instance(mode, security),
        security matches Ok(s) ==> (tls_poll_instance(mode, security) <==> mode is Poll && s is Some
            && (s->0).mode is Tls),
{
}

/// A refused launch is reported in the words of its own cause.
pub proof fn a_refused_launch_says_why(u: UnknownAdapter, why: String)
    ensures
        LaunchRefusal::Adapter(u).text() == u.text(),
        LaunchRefusal::Other(why).text() == why@,
{
}

} // verus!
