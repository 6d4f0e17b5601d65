//! Request-for-quote marketplace: maker metadata, resting RFQ orders, taker
//! declarations and their approval. A thin keyed CRUD layer beside the core;
//! prices and sizes are integers in micro-units.

use vstd::prelude::*;

use crate::amounts::MICRO;
use crate::arith::lemma_mul_le;
use crate::kv;
use crate::kv::Keyed;
use crate::strutil::str_eq;
use crate::sys::{mint_id, now_rfc3339};
use vstd::string::StrSliceExecFns;
use vstd::string::StringExecFns;

verus! {

pub open spec fn is_hex_digit(c: char) -> bool {
    (('0' as u32) <= (c as u32) && (c as u32) <= ('9' as u32)) || (('a' as u32) <= (c as u32) && (
    c as u32) <= ('f' as u32)) || (('A' as u32) <= (c as u32) && (c as u32) <= ('F' as u32))
}

pub open spec fn hex_val(c: char) -> int {
    if ('0' as u32) <= (c as u32) && (c as u32) <= ('9' as u32) {
        (c as u32) - ('0' as u32)
    } else if ('a' as u32) <= (c as u32) && (c as u32) <= ('f' as u32) {
        (c as u32) - ('a' as u32) + 10
    } else {
        (c as u32) - ('A' as u32) + 10
    }
}

/// A decodable hex string: even length, hex digits throughout.
pub open spec fn hex_ok(s: Seq<char>) -> bool {
    s.len() % 2 == 0 && forall|i: int| 0 <= i < s.len() ==> is_hex_digit(#[trigger] s[i])
}

/// The bytes a hex string denotes, two digits each.
pub open spec fn hex_decoded(s: Seq<char>) -> Seq<u8> {
    Seq::new((s.len() / 2) as nat, |i: int| (hex_val(s[2 * i]) * 16 + hex_val(s[2 * i + 1])) as u8)
}

/// Decode a hex string into bytes: exactly the denoted bytes on a
/// well-formed string, and a refusal otherwise.
pub fn decode_hex(hex: &str) -> (r: Result<Vec<u8>, String>)
    ensures
        (r is Ok) == hex_ok(hex@),
        r matches Ok(v) ==> v@ == hex_decoded(hex@),
{
    let n = hex.unicode_len();
    if n % 2 != 0 {
        return Err("Invalid hex string length".to_owned());
    }
    let mut bytes: Vec<u8> = Vec::new();
    let mut i: usize = 0;
    while i < n
        invariant
            0 <= i <= n,
            i % 2 == 0,
            n % 2 == 0,
            n == hex@.len(),
            bytes@.len() == i / 2,
            forall|j: int| 0 <= j < i ==> is_hex_digit(#[trigger] hex@[j]),
            forall|j: int|
                0 <= j < bytes@.len() ==> #[trigger] bytes@[j] == (hex_val(hex@[2 * j]) * 16
                    + hex_val(hex@[2 * j + 1])) as u8,
        decreases n - i,
    {
        let c1 = hex.get_char(i);
        let c2 = hex.get_char(i + 1);
        let v1 = match hex_digit_val(c1) {
            Some(v) => v,
            None => {
                return Err("invalid hex character: ".to_owned().concat(
                    hex.substring_char(i, i + 2),
                ));
            },
        };
        let v2 = match hex_digit_val(c2) {
            Some(v) => v,
            None => {
                return Err("invalid hex character: ".to_owned().concat(
                    hex.substring_char(i, i + 2),
                ));
            },
        };
        bytes.push(v1 * 16 + v2);
        i = i + 2;
    }
    proof {
        assert(bytes@ =~= hex_decoded(hex@));
    }
    Ok(bytes)
}

/// Value of one hex digit, if it is one.
fn hex_digit_val(c: char) -> (r: Option<u8>)
    ensures
        (r is Some) == is_hex_digit(c),
        r matches Some(v) ==> v == hex_val(c),
{
    if c >= '0' && c <= '9' {
        Some((c as u32 - '0' as u32) as u8)
    } else if c >= 'a' && c <= 'f' {
        Some((c as u32 - 'a' as u32 + 10) as u8)
    } else if c >= 'A' && c <= 'F' {
        Some((c as u32 - 'A' as u32 + 10) as u8)
    } else {
        None
    }
}

/// A maker on the marketplace. Scores and rates are in basis points.
pub struct RFQMakerMeta {
    pub id: String,
    pub display_name: String,
    pub verified: bool,
    pub reputation_score: u64,
    pub auto_sign_sla_ms: u64,
    pub fills_completed: u64,
    pub failure_rate: u64,
    pub allowlist_label: Option<String>,
}

/// A resting RFQ order. Price and size are micro-units.
pub struct RFQOrder {
    pub id: String,
    pub pair: String,
    pub side: String,
    pub price: u64,
    pub size: u64,
    pub min_fill: Option<u64>,
    pub expiry: String,
    pub maker: RFQMakerMeta,
    pub unsigned_block: String,
    pub maker_signature: String,
    pub allowlisted: bool,
    pub status: String,
    pub taker_fill_amount: Option<u64>,
    pub taker_address: Option<String>,
    pub created_at: String,
    pub updated_at: String,
}

/// The chain-side mirror of an RFQ order.
pub struct KeetaRFQOrder {
    pub order_id: String,
    pub keeta_token_id: String,
    pub keeta_transaction_hash: String,
    pub maker_public_key: String,
    pub pair: String,
    pub side: String,
    pub price: u64,
    pub size: u64,
    pub min_fill: Option<u64>,
    pub expiry: String,
    pub status: String,
    pub created_at: String,
    pub updated_at: String,
}

/// Metadata an RFQ order carries on chain.
pub struct KeetaRFQMetadata {
    pub order_type: String,
    pub pair: String,
    pub side: String,
    pub price: u64,
    pub size: u64,
    pub min_fill: Option<u64>,
    pub expiry: String,
    pub maker_id: String,
    pub maker_display_name: String,
    pub unsigned_block: String,
    pub maker_signature: String,
    pub allowlisted: bool,
}

impl Keyed for KeetaRFQOrder {
    open spec fn key(&self) -> (Seq<char>, Seq<char>) {
        (self.order_id@, Seq::<char>::empty())
    }
}

/// Fill request a taker submits.
pub struct RFQFillRequest {
    pub taker_address: Option<String>,
    pub taker_amount: u64,
    pub auto_publish: Option<bool>,
}

/// Fill acknowledgement.
pub struct RFQFillResponse {
    pub order_id: String,
    pub status: String,
    pub latency_ms: u64,
}

#[derive(Clone, Copy, Debug, PartialEq, Eq, Structural)]
pub enum DeclarationStatus {
    Pending,
    Approved,
    Rejected,
    Expired,
}

/// A taker's declared intention to fill an order.
pub struct RFQDeclaration {
    pub id: String,
    pub order_id: String,
    pub taker_address: String,
    pub fill_amount: u64,
    pub declared_at: String,
    pub status: DeclarationStatus,
    pub unsigned_atomic_swap_block: Option<String>,
}

impl Keyed for RFQDeclaration {
    open spec fn key(&self) -> (Seq<char>, Seq<char>) {
        (self.id@, Seq::<char>::empty())
    }
}

/// Declaration request body.
pub struct RFQDeclarationRequest {
    pub taker_address: String,
    pub fill_amount: u64,
    pub unsigned_atomic_swap_block: Option<String>,
}

/// Declaration acknowledgement.
pub struct RFQDeclarationResponse {
    pub declaration_id: String,
    pub status: String,
}

/// Approval or rejection of a declaration by the maker.
pub struct RFQApprovalRequest {
    pub declaration_id: String,
    pub approved: bool,
}

/// Balance a taker is assumed to hold in the demo marketplace.
pub const SIMULATED_TAKER_BALANCE: u64 = 1_000_000_000;

/// Collateral a fill requires of the taker: the quote leg of a buy, the
/// base leg of a sell.
pub open spec fn spec_required_taker_amount(side: Seq<char>, price: u64, fill: u64) -> int {
    if side == "buy"@ {
        (fill * price) / (MICRO as int)
    } else {
        fill as int
    }
}

/// The chain-side store of RFQ orders.
pub struct KeetaRFQManager {
    orders: Vec<KeetaRFQOrder>,
}

impl KeetaRFQManager {
    /// The mirrored order under an id, if any.
    pub closed spec fn order_of(self, id: Seq<char>) -> Option<KeetaRFQOrder> {
        kv::lookup(self.orders@, (id, Seq::<char>::empty()))
    }

    pub closed spec fn wf(self) -> bool {
        kv::unique_keys(self.orders@)
    }

    pub fn new() -> (r: KeetaRFQManager)
        ensures
            r.wf(),
            forall|id: Seq<char>| #[trigger] r.order_of(id) is None,
    {
        KeetaRFQManager { orders: Vec::new() }
    }

    fn find_order(&self, id: &str) -> (r: Option<usize>)
        requires
            self.wf(),
        ensures
            match r {
                Some(i) => i < self.orders@.len() && self.order_of(id@) == Some(
                    self.orders@[i as int],
                ) && self.orders@[i as int].order_id@ == id@,
                None => self.order_of(id@) is None,
            },
    {
        let n = self.orders.len();
        let mut j: usize = 0;
        while j < n
            invariant
                0 <= j <= n,
                self.wf(),
                n == self.orders@.len(),
                forall|a: int|
                    0 <= a < j ==> (#[trigger] self.orders@[a].key()) != (
                        id@,
                        Seq::<char>::empty(),
                    ),
            decreases n - j,
        {
            if str_eq(self.orders[j].order_id.as_str(), id) {
                proof {
                    kv::lemma_lookup_present(self.orders@, j as int);
                }
                return Some(j);
            }
            j = j + 1;
        }
        proof {
            kv::lemma_lookup_absent(self.orders@, (id@, Seq::<char>::empty()));
        }
        None
    }

    /// Mirror a new RFQ order on the chain side, minting its token id and
    /// transaction hash.
    pub fn create_rfq_order(&mut self, order: &RFQOrder) -> (r: KeetaRFQOrder)
        requires
            old(self).wf(),
        ensures
            final(self).wf(),
            r.order_id@ == order.id@,
            r.pair@ == order.pair@,
            r.side@ == order.side@,
            r.price == order.price,
            r.size == order.size,
            r.status@ == order.status@,
            r.keeta_token_id@ == "keeta_token_"@ + order.id@,
            (final(self)).order_of(order.id@) is Some,
            forall|id2: Seq<char>|
                id2 != order.id@ ==> #[trigger] (final(self)).order_of(id2) == old(self).order_of(
                    id2,
                ),
    {
        let keeta_token_id = "keeta_token_".to_owned().concat(order.id.as_str());
        let keeta_transaction_hash = "keeta_tx_".to_owned().concat(mint_id().as_str());
        let mirrored = KeetaRFQOrder {
            order_id: order.id.clone(),
            keeta_token_id,
            keeta_transaction_hash,
            maker_public_key: order.maker.id.clone(),
            pair: order.pair.clone(),
            side: order.side.clone(),
            price: order.price,
            size: order.size,
            min_fill: order.min_fill,
            expiry: order.expiry.clone(),
            status: order.status.clone(),
            created_at: order.created_at.clone(),
            updated_at: order.updated_at.clone(),
        };
        let copy = KeetaRFQOrder {
            order_id: mirrored.order_id.clone(),
            keeta_token_id: mirrored.keeta_token_id.clone(),
            keeta_transaction_hash: mirrored.keeta_transaction_hash.clone(),
            maker_public_key: mirrored.maker_public_key.clone(),
            pair: mirrored.pair.clone(),
            side: mirrored.side.clone(),
            price: mirrored.price,
            size: mirrored.size,
            min_fill: mirrored.min_fill,
            expiry: mirrored.expiry.clone(),
            status: mirrored.status.clone(),
            created_at: mirrored.created_at.clone(),
            updated_at: mirrored.updated_at.clone(),
        };
        self.upsert_order(copy);
        mirrored
    }

    /// Write an order under its id, creating or replacing it.
    fn upsert_order(&mut self, o: KeetaRFQOrder)
        requires
            old(self).wf(),
        ensures
            final(self).wf(),
            final(self).order_of(o.order_id@) == Some(o),
            forall|id2: Seq<char>|
                id2 != o.order_id@ ==> #[trigger] (final(self)).order_of(id2) == old(
                    self,
                ).order_of(id2),
    {
        match self.find_order_owned(&o) {
            Some(i) => {
                proof {
                    kv::lemma_lookup_update(self.orders@, i as int, o);
                }
                self.orders[i] = o;
            },
            None => {
                proof {
                    kv::lemma_lookup_none_keys(self.orders@, (o.order_id@, Seq::<char>::empty()));
                    kv::lemma_lookup_push(self.orders@, o);
                }
                self.orders.push(o);
            },
        }
    }

    /// Index of the entry carrying this order's id.
    fn find_order_owned(&self, o: &KeetaRFQOrder) -> (r: Option<usize>)
        requires
            self.wf(),
        ensures
            match r {
                Some(i) => i < self.orders@.len() && self.orders@[i as int].order_id@
                    == o.order_id@,
                None => self.order_of(o.order_id@) is None,
            },
    {
        self.find_order(o.order_id.as_str())
    }

    /// Cancel a mirrored order: it turns `cancelled` with a fresh stamp.
    pub fn cancel_rfq_order(&mut self, order_id: &str) -> (r: Result<(), String>)
        requires
            old(self).wf(),
        ensures
            final(self).wf(),
            (r is Ok) == (old(self).order_of(order_id@) is Some),
            old(self).order_of(order_id@) is Some ==> ((final(self)).order_of(order_id@) matches
                Some(o2) && o2.status@ == "cancelled"@),
            forall|id2: Seq<char>|
                id2 != order_id@ ==> #[trigger] (final(self)).order_of(id2) == old(self).order_of(
                    id2,
                ),
    {
        match self.find_order(order_id) {
            Some(i) => {
                let updated = KeetaRFQOrder {
                    order_id: self.orders[i].order_id.clone(),
                    keeta_token_id: self.orders[i].keeta_token_id.clone(),
                    keeta_transaction_hash: self.orders[i].keeta_transaction_hash.clone(),
                    maker_public_key: self.orders[i].maker_public_key.clone(),
                    pair: self.orders[i].pair.clone(),
                    side: self.orders[i].side.clone(),
                    price: self.orders[i].price,
                    size: self.orders[i].size,
                    min_fill: self.orders[i].min_fill,
                    expiry: self.orders[i].expiry.clone(),
                    status: "cancelled".to_owned(),
                    created_at: self.orders[i].created_at.clone(),
                    updated_at: now_rfc3339(),
                };
                proof {
                    kv::lemma_lookup_update(self.orders@, i as int, updated);
                }
                self.orders[i] = updated;
                Ok(())
            },
            None => Err("order not found: ".to_owned().concat(order_id)),
        }
    }

    /// Fill a mirrored order: it turns `filled` with a fresh stamp.
    pub fn fill_rfq_order(&mut self, order_id: &str, taker_amount: u64) -> (r: Result<(), String>)
        requires
            old(self).wf(),
        ensures
            final(self).wf(),
            (r is Ok) == (old(self).order_of(order_id@) is Some),
            old(self).order_of(order_id@) is Some ==> ((final(self)).order_of(order_id@) matches
                Some(o2) && o2.status@ == "filled"@),
            forall|id2: Seq<char>|
                id2 != order_id@ ==> #[trigger] (final(self)).order_of(id2) == old(self).order_of(
                    id2,
                ),
    {
        let _ = taker_amount;
        match self.find_order(order_id) {
            Some(i) => {
                let updated = KeetaRFQOrder {
                    order_id: self.orders[i].order_id.clone(),
                    keeta_token_id: self.orders[i].keeta_token_id.clone(),
                    keeta_transaction_hash: self.orders[i].keeta_transaction_hash.clone(),
                    maker_public_key: self.orders[i].maker_public_key.clone(),
                    pair: self.orders[i].pair.clone(),
                    side: self.orders[i].side.clone(),
                    price: self.orders[i].price,
                    size: self.orders[i].size,
                    min_fill: self.orders[i].min_fill,
                    expiry: self.orders[i].expiry.clone(),
                    status: "filled".to_owned(),
                    created_at: self.orders[i].created_at.clone(),
                    updated_at: now_rfc3339(),
                };
                proof {
                    kv::lemma_lookup_update(self.orders@, i as int, updated);
                }
                self.orders[i] = updated;
                Ok(())
            },
            None => Err("order not found: ".to_owned().concat(order_id)),
        }
    }

    /// Whether an order is mirrored under this id.
    pub fn has_order(&self, order_id: &str) -> (r: bool)
        requires
            self.wf(),
        ensures
            r == (self.order_of(order_id@) is Some),
    {
        match self.find_order(order_id) {
            Some(_) => true,
            None => false,
        }
    }

    /// Check the taker can cover a fill against the demo balance: the quote
    /// leg of a buy, the base leg of a sell.
    pub fn validate_taker_balance(&self, order_side: &str, order_price: u64, fill_amount: u64) -> (r:
        Result<(), String>)
        ensures
            (r is Ok) == (spec_required_taker_amount(order_side@, order_price, fill_amount)
                <= SIMULATED_TAKER_BALANCE),
    {
        proof {
            lemma_mul_le(
                fill_amount as int,
                order_price as int,
                u64::MAX as int,
                u64::MAX as int,
            );
        }
        let required: u128 = if str_eq(order_side, "buy") {
            (fill_amount as u128 * order_price as u128) / (MICRO as u128)
        } else {
            fill_amount as u128
        };
        if required > SIMULATED_TAKER_BALANCE as u128 {
            Err("insufficient taker balance".to_owned())
        } else {
            Ok(())
        }
    }
}

/// The declaration store, keyed by declaration id.
pub struct DeclarationStore {
    declarations: Vec<RFQDeclaration>,
}

impl DeclarationStore {
    /// The declaration under an id, if any.
    pub closed spec fn decl_of(self, id: Seq<char>) -> Option<RFQDeclaration> {
        kv::lookup(self.declarations@, (id, Seq::<char>::empty()))
    }

    pub closed spec fn wf(self) -> bool {
        kv::unique_keys(self.declarations@)
    }

    pub fn new() -> (r: DeclarationStore)
        ensures
            r.wf(),
            forall|id: Seq<char>| #[trigger] r.decl_of(id) is None,
    {
        DeclarationStore { declarations: Vec::new() }
    }

    fn find_declaration(&self, id: &str) -> (r: Option<usize>)
        requires
            self.wf(),
        ensures
            match r {
                Some(i) => i < self.declarations@.len() && self.decl_of(id@) == Some(
                    self.declarations@[i as int],
                ) && self.declarations@[i as int].id@ == id@,
                None => self.decl_of(id@) is None,
            },
    {
        let n = self.declarations.len();
        let mut j: usize = 0;
        while j < n
            invariant
                0 <= j <= n,
                self.wf(),
                n == self.declarations@.len(),
                forall|a: int|
                    0 <= a < j ==> (#[trigger] self.declarations@[a].key()) != (
                        id@,
                        Seq::<char>::empty(),
                    ),
            decreases n - j,
        {
            if str_eq(self.declarations[j].id.as_str(), id) {
                proof {
                    kv::lemma_lookup_present(self.declarations@, j as int);
                }
                return Some(j);
            }
            j = j + 1;
        }
        proof {
            kv::lemma_lookup_absent(self.declarations@, (id@, Seq::<char>::empty()));
        }
        None
    }

    /// Store a taker's declared intention under a fresh id, `Pending`.
    pub fn declare_intention(&mut self, order_id: &str, req: &RFQDeclarationRequest) -> (r:
        RFQDeclaration)
        requires
            old(self).wf(),
        ensures
            final(self).wf(),
            r.id@.len() > 0,
            r.order_id@ == order_id@,
            r.taker_address@ == req.taker_address@,
            r.fill_amount == req.fill_amount,
            r.status == DeclarationStatus::Pending,
            (final(self)).decl_of(r.id@) is Some,
            forall|id2: Seq<char>|
                id2 != r.id@ ==> #[trigger] (final(self)).decl_of(id2) == old(self).decl_of(id2),
    {
        let id = "decl-".to_owned().concat(mint_id().as_str());
        let decl = RFQDeclaration {
            id: id.clone(),
            order_id: order_id.to_owned(),
            taker_address: req.taker_address.clone(),
            fill_amount: req.fill_amount,
            declared_at: now_rfc3339(),
            status: DeclarationStatus::Pending,
            unsigned_atomic_swap_block: crate::pool_manager::clone_opt_string(
                &req.unsigned_atomic_swap_block,
            ),
        };
        let copy = RFQDeclaration {
            id: decl.id.clone(),
            order_id: decl.order_id.clone(),
            taker_address: decl.taker_address.clone(),
            fill_amount: decl.fill_amount,
            declared_at: decl.declared_at.clone(),
            status: decl.status,
            unsigned_atomic_swap_block: crate::pool_manager::clone_opt_string(
                &decl.unsigned_atomic_swap_block,
            ),
        };
        match self.find_declaration(id.as_str()) {
            Some(i) => {
                proof {
                    kv::lemma_lookup_update(self.declarations@, i as int, copy);
                }
                self.declarations[i] = copy;
            },
            None => {
                proof {
                    kv::lemma_lookup_none_keys(
                        self.declarations@,
                        (id@, Seq::<char>::empty()),
                    );
                    kv::lemma_lookup_push(self.declarations@, copy);
                }
                self.declarations.push(copy);
            },
        }
        decl
    }

    /// Declarations filed against one order, in arrival order.
    pub fn declarations_for(&self, order_id: &str) -> (r: Vec<RFQDeclaration>)
        ensures
            forall|j: int| 0 <= j < r@.len() ==> (#[trigger] r@[j]).order_id@ == order_id@,
    {
        let n = self.declarations.len();
        let mut r: Vec<RFQDeclaration> = Vec::new();
        let mut j: usize = 0;
        while j < n
            invariant
                0 <= j <= n,
                n == self.declarations@.len(),
                forall|a: int| 0 <= a < r@.len() ==> (#[trigger] r@[a]).order_id@ == order_id@,
            decreases n - j,
        {
            if str_eq(self.declarations[j].order_id.as_str(), order_id) {
                let d = &self.declarations[j];
                r.push(
                    RFQDeclaration {
                        id: d.id.clone(),
                        order_id: d.order_id.clone(),
                        taker_address: d.taker_address.clone(),
                        fill_amount: d.fill_amount,
                        declared_at: d.declared_at.clone(),
                        status: d.status,
                        unsigned_atomic_swap_block: crate::pool_manager::clone_opt_string(
                            &d.unsigned_atomic_swap_block,
                        ),
                    },
                );
            }
            j = j + 1;
        }
        r
    }

    /// What the boundary must do after a maker's verdict on a declaration.
    pub fn approve_declaration(&mut self, order_id: &str, req: &RFQApprovalRequest) -> (r: Result<
        (DeclarationStatus, Option<Vec<u8>>),
        String,
    >)
        requires
            old(self).wf(),
        ensures
            final(self).wf(),
            old(self).decl_of(req.declaration_id@) is None ==> r is Err && *final(self) == *old(
                self,
            ),
            r matches Ok((st, act)) ==> ({
                &&& st == (if req.approved {
                    DeclarationStatus::Approved
                } else {
                    DeclarationStatus::Rejected
                })
                &&& ((final(self)).decl_of(req.declaration_id@) matches Some(d2) && d2.status
                    == st)
                &&& (req.approved ==> (old(self).decl_of(
                    req.declaration_id@,
                )->0.unsigned_atomic_swap_block matches Some(blk) ==> (hex_ok(blk@) ==> (act
                    matches Some(bytes) && bytes@ == hex_decoded(blk@)))))
                &&& (!req.approved ==> act is None)
            }),
    {
        let i = match self.find_declaration(req.declaration_id.as_str()) {
            Some(i) => i,
            None => {
                return Err("declaration not found".to_owned());
            },
        };
        if !str_eq(self.declarations[i].order_id.as_str(), order_id) {
            return Err("declaration does not belong to this order".to_owned());
        }
        let new_status = if req.approved {
            DeclarationStatus::Approved
        } else {
            DeclarationStatus::Rejected
        };
        let action: Option<Vec<u8>> = if req.approved {
            match &self.declarations[i].unsigned_atomic_swap_block {
                Some(blk) => {
                    match decode_hex(blk.as_str()) {
                        Ok(bytes) => Some(bytes),
                        Err(_) => {
                            return Err("failed to decode unsigned block".to_owned());
                        },
                    }
                },
                None => {
                    return Err("no unsigned block found for declaration".to_owned());
                },
            }
        } else {
            None
        };
        let d = &self.declarations[i];
        let updated = RFQDeclaration {
            id: d.id.clone(),
            order_id: d.order_id.clone(),
            taker_address: d.taker_address.clone(),
            fill_amount: d.fill_amount,
            declared_at: d.declared_at.clone(),
            status: new_status,
            unsigned_atomic_swap_block: crate::pool_manager::clone_opt_string(
                &d.unsigned_atomic_swap_block,
            ),
        };
        proof {
            kv::lemma_lookup_update(self.declarations@, i as int, updated);
        }
        self.declarations[i] = updated;
        Ok((new_status, action))
    }
}

/// Seed data the marketplace starts with.
pub struct RfqSeedData {
    pub makers: Vec<RFQMakerMeta>,
    pub orders: Vec<RFQOrder>,
}

/// The demo marketplace's starting state: two makers and three resting
/// orders.
pub fn init_rfq_data() -> (r: RfqSeedData)
    ensures
        r.makers@.len() == 2,
        r.orders@.len() == 3,
{
    let maker1 = RFQMakerMeta {
        id: "maker-1".to_owned(),
        display_name: "Sample Maker 1".to_owned(),
        verified: true,
        reputation_score: 9_500,
        auto_sign_sla_ms: 1_000,
        fills_completed: 150,
        failure_rate: 200,
        allowlist_label: Some("verified".to_owned()),
    };
    let maker2 = RFQMakerMeta {
        id: "maker-2".to_owned(),
        display_name: "Sample Maker 2".to_owned(),
        verified: false,
        reputation_score: 7_800,
        auto_sign_sla_ms: 2_000,
        fills_completed: 45,
        failure_rate: 500,
        allowlist_label: None,
    };
    let order1 = RFQOrder {
        id: "order-1".to_owned(),
        pair: "BTC/USD".to_owned(),
        side: "buy".to_owned(),
        price: 65_000_000_000,
        size: 100_000,
        min_fill: Some(50_000),
        expiry: "2024-12-31T23:59:59Z".to_owned(),
        maker: clone_maker(&maker1),
        unsigned_block: "sample_unsigned_block_1".to_owned(),
        maker_signature: "sample_maker_signature_1".to_owned(),
        allowlisted: true,
        status: "open".to_owned(),
        taker_fill_amount: None,
        taker_address: None,
        created_at: "2024-01-01T00:00:00Z".to_owned(),
        updated_at: "2024-01-01T00:00:00Z".to_owned(),
    };
    let order2 = RFQOrder {
        id: "order-2".to_owned(),
        pair: "BTC/USD".to_owned(),
        side: "sell".to_owned(),
        price: 65_100_000_000,
        size: 50_000,
        min_fill: Some(10_000),
        expiry: "2024-12-31T23:59:59Z".to_owned(),
        maker: clone_maker(&maker2),
        unsigned_block: "sample_unsigned_block_2".to_owned(),
        maker_signature: "sample_maker_signature_2".to_owned(),
        allowlisted: false,
        status: "open".to_owned(),
        taker_fill_amount: None,
        taker_address: None,
        created_at: "2024-01-01T00:00:00Z".to_owned(),
        updated_at: "2024-01-01T00:00:00Z".to_owned(),
    };
    let order3 = RFQOrder {
        id: "order-3".to_owned(),
        pair: "ETH/USD".to_owned(),
        side: "buy".to_owned(),
        price: 3_500_000_000,
        size: 1_000_000,
        min_fill: Some(500_000),
        expiry: "2024-12-31T23:59:59Z".to_owned(),
        maker: clone_maker(&maker1),
        unsigned_block: "sample_unsigned_block_3".to_owned(),
        maker_signature: "sample_maker_signature_3".to_owned(),
        allowlisted: true,
        status: "open".to_owned(),
        taker_fill_amount: None,
        taker_address: None,
        created_at: "2024-01-01T00:00:00Z".to_owned(),
        updated_at: "2024-01-01T00:00:00Z".to_owned(),
    };
    let mut makers: Vec<RFQMakerMeta> = Vec::new();
    makers.push(maker1);
    makers.push(maker2);
    let mut orders: Vec<RFQOrder> = Vec::new();
    orders.push(order1);
    orders.push(order2);
    orders.push(order3);
    RfqSeedData { makers, orders }
}

/// Copy a maker record, preserving its value.
pub fn clone_maker(m: &RFQMakerMeta) -> (r: RFQMakerMeta)
    ensures
        r == *m,
{
    RFQMakerMeta {
        id: m.id.clone(),
        display_name: m.display_name.clone(),
        verified: m.verified,
        reputation_score: m.reputation_score,
        auto_sign_sla_ms: m.auto_sign_sla_ms,
        fills_completed: m.fills_completed,
        failure_rate: m.failure_rate,
        allowlist_label: crate::pool_manager::clone_opt_string(&m.allowlist_label),
    }
}

} // verus!
