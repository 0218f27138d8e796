//! The policy in force, which can be replaced while packets are matched against
//! it, and the watch over the file it comes from.
use crate::engine;
use crate::engine::{match_packet, MatchResult};
use crate::policy;
use crate::policy::{DynamicPolicy, Policy};
use crate::text::same_text;
use arc_swap::ArcSwap;
use std::sync::Arc;
use vstd::prelude::*;

verus! {

/// A place for a policy that threads share, an `arc_swap::ArcSwap`.
#[verifier::external_body]
pub struct PolicyCell {
    cell: ArcSwap<DynamicPolicy>,
}

/// Every policy that is put into a place, from its making to its end and by
/// whichever thread.
pub uninterp spec fn ever_held(cell: PolicyCell) -> Set<DynamicPolicy>;

impl PolicyCell {
    /// A place that holds a policy, by `ArcSwap::from_pointee`: the policy is among
    /// those that are put there.
    #[verifier::external_body]
    fn from_pointee(policy: DynamicPolicy) -> (cell: Self)
        ensures
            ever_held(cell).contains(policy),
    {
        PolicyCell { cell: ArcSwap::from_pointee(policy) }
    }

    /// The policy that is found there, by `ArcSwap::load_full`: one of those that
    /// are put there. It is the one that was stored last; which one that is depends
    /// on the threads that store, so it is left unsaid.
    #[verifier::external_body]
    fn load_full(&self) -> (policy: Arc<DynamicPolicy>)
        ensures
            ever_held(*self).contains(*policy),
    {
        self.cell.load_full()
    }

    /// Puts a policy there, by `ArcSwap::store`, and hands a reference to it back:
    /// the policy is among those that are put there. How long it stays depends on
    /// the threads that store, so it is left unsaid.
    #[verifier::external_body]
    fn store(&self, policy: Arc<DynamicPolicy>) -> (stored: Arc<DynamicPolicy>)
        ensures
            stored == policy,
            ever_held(*self).contains(*stored),
    {
        self.cell.store(policy.clone());
        policy
    }
}

/// Holds the policy in force. A clone stands for the same place, so other threads
/// may replace the policy at any time.
pub struct PolicyManager {
    current: Arc<PolicyCell>,
}

impl Clone for PolicyManager {
    fn clone(&self) -> (manager: Self)
        ensures
            manager == *self,
    {
        PolicyManager { current: self.current.clone() }
    }
}

impl PolicyManager {
    /// Every policy that is put in force here, at any time and by whichever thread.
    pub closed spec fn ever_in_force(self) -> Set<DynamicPolicy> {
        ever_held(*self.current)
    }

    /// Puts a first policy in force.
    pub fn new(initial: DynamicPolicy) -> (manager: Self)
        ensures
            manager.ever_in_force().contains(initial),
    {
        PolicyManager { current: Arc::new(PolicyCell::from_pointee(initial)) }
    }

    /// The policy in force, as it was put in force here: the one that was put in
    /// force last. Which one that is depends on other threads.
    pub fn get_policy(&self) -> (policy: Arc<DynamicPolicy>)
        ensures
            self.ever_in_force().contains(*policy),
    {
        self.current.load_full()
    }

    /// Puts another policy in force. Packets that are being matched against the
    /// old one are not disturbed.
    pub fn reload(&self, new_policy: DynamicPolicy)
        ensures
            self.ever_in_force().contains(new_policy),
    {
        let _ = self.current.store(Arc::new(new_policy));
    }

    /// Puts a first policy in force that was written down, or says what is wrong
    /// with it.
    pub fn from_policy(policy: Policy) -> (r: Result<PolicyManager, String>)
        ensures
            match policy::policy_error(policy) {
                Some(m) => r is Err && r->Err_0@ == m,
                None => r is Ok && r->Ok_0.puts_in_force(policy),
            },
    {
        match DynamicPolicy::try_from(policy) {
            Ok(prepared) => Ok(PolicyManager::new(prepared)),
            Err(m) => Err(m),
        }
    }

    /// A policy that was written down is put in force here.
    pub open spec fn puts_in_force(self, policy: Policy) -> bool {
        exists|p: DynamicPolicy|
            #[trigger] self.ever_in_force().contains(p) && p.prepared_from(policy)
    }

    /// Matches a packet against the policy in force: against one policy as a
    /// whole, which was put in force here.
    pub fn match_current(&self, buf: &[u8]) -> (r: MatchResult)
        ensures
            exists|p: DynamicPolicy|
                #[trigger] self.ever_in_force().contains(p) && r == engine::verdict(buf@, p),
    {
        let policy: Arc<DynamicPolicy> = self.get_policy();
        match_packet(buf, &*policy)
    }
}

/// When a file was last changed: seconds and nanoseconds of an epoch.
#[derive(Clone, Copy, Debug, PartialEq, Eq, Structural)]
pub struct Modified {
    pub secs: u64,
    pub nanos: u32,
}

/// Watches over the file that the policy comes from.
#[derive(Clone, Copy, Debug, PartialEq, Eq, Structural)]
pub struct PolicyWatcher {
    /// When the file was changed that the policy in force comes from, if that is
    /// known.
    pub last_modified: Option<Modified>,
}

impl PolicyWatcher {
    /// Begins to watch over a file that was last changed then, if there is one.
    pub fn new(modified: Option<Modified>) -> (watcher: Self)
        ensures
            watcher.last_modified == modified,
    {
        PolicyWatcher { last_modified: modified }
    }

    /// Whether the file has to be loaded again: there is one, and its time is not
    /// the one that is known.
    pub fn is_due(&self, modified: Option<Modified>) -> (due: bool)
        ensures
            due == (modified is Some && self.last_modified != modified),
            modified is None || modified == self.last_modified ==> !due,
            modified is Some && self.last_modified is None ==> due,
    {
        match (modified, self.last_modified) {
            (Some(now), Some(last)) => now.secs != last.secs || now.nanos != last.nanos,
            (Some(_), None) => true,
            (None, _) => false,
        }
    }

    /// Takes in what was loaded from the file. A policy that is in order is
    /// prepared, and the time is known from then on; else there is a message, and
    /// the file stays due.
    pub fn loaded(&mut self, modified: Modified, loaded: Result<Policy, String>) -> (r: Result<
        DynamicPolicy,
        String,
    >)
        ensures
            match loaded {
                Err(m) => r == Err::<DynamicPolicy, String>(m),
                Ok(policy) => match policy::policy_error(policy) {
                    Some(m) => r is Err && r->Err_0@ == m,
                    None => r is Ok && r->Ok_0.prepared_from(policy),
                },
            },
            final(self).last_modified == if r is Ok {
                Some(modified)
            } else {
                old(self).last_modified
            },
            loaded is Err ==> r is Err,
            r matches Ok(prepared) ==> prepared.version@ == loaded->Ok_0.version@,
            r is Err ==> *final(self) == *old(self),
    {
        match loaded {
            Err(m) => Err(m),
            Ok(policy) => match DynamicPolicy::try_from(policy) {
                Ok(prepared) => {
                    self.last_modified = Some(modified);
                    Ok(prepared)
                },
                Err(m) => Err(m),
            },
        }
    }

    /// Takes in what was loaded from the file, and puts it in force where it is in
    /// order.
    pub fn refresh(
        &mut self,
        manager: &PolicyManager,
        modified: Modified,
        loaded: Result<Policy, String>,
    ) -> (r: Result<(), String>)
        ensures
            match loaded {
                Err(m) => r == Err::<(), String>(m),
                Ok(policy) => match policy::policy_error(policy) {
                    Some(m) => r is Err && r->Err_0@ == m,
                    None => r is Ok && manager.puts_in_force(policy),
                },
            },
            final(self).last_modified == if r is Ok {
                Some(modified)
            } else {
                old(self).last_modified
            },
    {
        match self.loaded(modified, loaded) {
            Ok(prepared) => {
                manager.reload(prepared);
                Ok(())
            },
            Err(m) => Err(m),
        }
    }
}

/// How a policy is written down.
#[derive(Clone, Copy, Debug, PartialEq, Eq, Structural)]
pub enum PolicyFormat {
    Json,
    Toml,
}

/// How the policy in a file with this extension is written down.
pub fn policy_format(extension: Option<&str>) -> (format: PolicyFormat)
    ensures
        format == match extension {
            Some(e) => if e@ == "json"@ {
                PolicyFormat::Json
            } else {
                PolicyFormat::Toml
            },
            None => PolicyFormat::Toml,
        },
        format is Json <==> extension is Some && extension->0@ == "json"@,
{
    match extension {
        Some(e) => if same_text(e, "json") {
            PolicyFormat::Json
        } else {
            PolicyFormat::Toml
        },
        None => PolicyFormat::Toml,
    }
}

/// The message for a policy that could not be read, with the reason.
pub fn parse_failure(format: PolicyFormat, reason: &str) -> (m: String)
    ensures
        m@ == match format {
            PolicyFormat::Json => "JSON parse error: "@ + reason@,
            PolicyFormat::Toml => "TOML parse error: "@ + reason@,
        },
{
    let mut m: String = match format {
        PolicyFormat::Json => "JSON parse error: ".to_owned(),
        PolicyFormat::Toml => "TOML parse error: ".to_owned(),
    };
    m.append(reason);
    m
}

} // verus!
