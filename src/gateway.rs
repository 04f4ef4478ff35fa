use vstd::prelude::*;
use std::collections::HashMap;

use crate::error::{QuipayError, QuipayResult};
use crate::Address;

verus! {

broadcast use vstd::std_specs::hash::group_hash_axioms;

/// An action that an automated agent may be allowed to perform.
#[derive(Clone, Copy, Debug, PartialEq, Eq, Structural)]
pub enum Permission {
    ExecutePayroll,
    ManageTreasury,
    RegisterAgent,
}

/// A registered agent and the actions granted to it.
#[derive(Debug)]
pub struct Agent {
    pub address: Address,
    pub permissions: Vec<Permission>,
    pub registered_at: u64,
}

/// The abstract content of an `Agent`.
pub struct AgentView {
    pub address: Address,
    pub permissions: Seq<Permission>,
    pub registered_at: u64,
}

impl View for Agent {
    type V = AgentView;

    open spec fn view(&self) -> AgentView {
        AgentView {
            address: self.address,
            permissions: self.permissions@,
            registered_at: self.registered_at,
        }
    }
}

/// Authorizes automated callers to invoke payroll operations.
pub struct AutomationGateway {
    admin: Option<Address>,
    agents: HashMap<Address, Agent>,
}

/// The abstract state of an `AutomationGateway`.
pub struct GatewayView {
    pub admin: Option<Address>,
    pub agents: Map<Address, AgentView>,
}

impl GatewayView {
    /// Whether `agent` is registered with `action` among its permissions.
    pub open spec fn authorizes(self, agent: Address, action: Permission) -> bool {
        self.agents.contains_key(agent) && self.agents[agent].permissions.contains(action)
    }

    /// Admin gate in front of a state change.
    pub open spec fn as_admin(self, caller: Address, next: GatewayView) -> Result<GatewayView, QuipayError> {
        match self.admin {
            None => Err(QuipayError::NotInitialized),
            Some(a) => if a != caller {
                Err(QuipayError::Unauthorized)
            } else {
                Ok(next)
            },
        }
    }
}

impl View for AutomationGateway {
    type V = GatewayView;

    closed spec fn view(&self) -> GatewayView {
        GatewayView { admin: self.admin, agents: self.agents@.map_values(|a: Agent| a@) }
    }
}

/// Ties a result to an outcome: the new state on success, the error and an
/// unchanged state on failure.
pub open spec fn gateway_applied(
    r: QuipayResult<()>,
    outcome: Result<GatewayView, QuipayError>,
    before: GatewayView,
    after: GatewayView,
) -> bool {
    match outcome {
        Ok(v) => r is Ok && after == v,
        Err(e) => r == Err::<(), QuipayError>(e) && after == before,
    }
}

impl AutomationGateway {
    /// A gateway with no admin and no agents.
    pub fn new() -> (r: AutomationGateway)
        ensures
            r@.admin is None,
            r@.agents == Map::<Address, AgentView>::empty(),
    {
        let r = AutomationGateway { admin: None, agents: HashMap::new() };
        proof {
            assert(r@.agents =~= Map::<Address, AgentView>::empty());
        }
        r
    }

    /// Sets the admin (the employer), once.
    pub fn init(&mut self, admin: Address) -> (r: QuipayResult<()>)
        ensures
            gateway_applied(
                r,
                if old(self)@.admin is Some {
                    Err(QuipayError::AlreadyInitialized)
                } else {
                    Ok((GatewayView { admin: Some(admin), ..old(self)@ }))
                },
                old(self)@,
                final(self)@,
            ),
    {
        if self.admin.is_some() {
            return Err(QuipayError::AlreadyInitialized);
        }
        self.admin = Some(admin);
        Ok(())
    }

    pub fn get_admin(&self) -> (r: QuipayResult<Address>)
        ensures
            r == (match self@.admin {
                Some(a) => Ok(a),
                None => Err::<Address, QuipayError>(QuipayError::NotInitialized),
            }),
    {
        match self.admin {
            Some(a) => Ok(a),
            None => Err(QuipayError::NotInitialized),
        }
    }

    /// Registers (or re-registers) an agent with exactly `permissions`; the admin only.
    pub fn register_agent(
        &mut self,
        caller: Address,
        agent_address: Address,
        permissions: Vec<Permission>,
        now: u64,
    ) -> (r: QuipayResult<()>)
        ensures
            gateway_applied(
                r,
                old(self)@.as_admin(
                    caller,
                    GatewayView {
                        agents: old(self)@.agents.insert(
                            agent_address,
                            AgentView { address: agent_address, permissions: permissions@, registered_at: now },
                        ),
                        ..old(self)@
                    },
                ),
                old(self)@,
                final(self)@,
            ),
    {
        let admin = self.get_admin()?;
        if admin != caller {
            return Err(QuipayError::Unauthorized);
        }
        let agent = Agent { address: agent_address, permissions, registered_at: now };
        self.agents.insert(agent_address, agent);
        proof {
            assert(self@.agents =~= old(self)@.agents.insert(
                agent_address,
                AgentView { address: agent_address, permissions: permissions@, registered_at: now },
            ));
        }
        Ok(())
    }

    /// Withdraws every permission of an agent; the admin only.
    pub fn revoke_agent(&mut self, caller: Address, agent_address: Address) -> (r: QuipayResult<()>)
        ensures
            gateway_applied(
                r,
                old(self)@.as_admin(
                    caller,
                    GatewayView { agents: old(self)@.agents.remove(agent_address), ..old(self)@ },
                ),
                old(self)@,
                final(self)@,
            ),
    {
        let admin = self.get_admin()?;
        if admin != caller {
            return Err(QuipayError::Unauthorized);
        }
        self.agents.remove(&agent_address);
        proof {
            assert(self@.agents =~= old(self)@.agents.remove(agent_address));
        }
        Ok(())
    }

    /// Whether `agent_address` is registered with `action` among its permissions.
    pub fn is_authorized(&self, agent_address: Address, action: Permission) -> (r: bool)
        ensures
            r == self@.authorizes(agent_address, action),
    {
        match self.agents.get(&agent_address) {
            None => false,
            Some(agent) => {
                proof {
                    assert(self@.agents[agent_address] == agent@);
                }
                let mut i: usize = 0;
                while i < agent.permissions.len()
                    invariant
                        i <= agent.permissions.len(),
                        self@.agents.contains_key(agent_address),
                        self@.agents[agent_address] == agent@,
                        forall|j: int| 0 <= j < i ==> agent.permissions@[j] != action,
                    decreases agent.permissions.len() - i,
                {
                    if agent.permissions[i] == action {
                        proof {
                            assert(agent.permissions@[i as int] == action);
                        }
                        return true;
                    }
                    i += 1;
                }
                false
            },
        }
    }

    /// Admits an automated action only for an agent holding its permission.
    /// The payload is routed by the host once this succeeds.
    pub fn execute_automation(&self, agent: Address, action: Permission, _data: &[u8]) -> (r: QuipayResult<()>)
        ensures
            r is Ok <==> self@.authorizes(agent, action),
            r is Err ==> r == Err::<(), QuipayError>(QuipayError::InsufficientPermissions),
    {
        if !self.is_authorized(agent, action) {
            return Err(QuipayError::InsufficientPermissions);
        }
        Ok(())
    }
}

} // verus!
