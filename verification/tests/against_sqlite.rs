//! The store against the SQL statements that its tables are kept with.
use cipherclip::db::Database;
use cipherclip::tables::{Clocks, SyncEvent};
use rusqlite::{Connection, OptionalExtension};
use sha2::{Digest, Sha256};

struct Sql {
    conn: Connection,
    device_id: String,
}

type Clip = (i64, Option<String>, String, Vec<u8>, i64, bool, bool, bool, Option<String>, bool, Option<String>);
type Event = (i64, String, String, String, i64, i64, Option<String>, Option<Vec<u8>>, Option<bool>, Option<String>);

const HANDED: &str = "SELECT e.event_type, e.clip_uuid, e.device_id, e.vector_clock, e.timestamp,
    COALESCE(e.content_type, c.content_type), COALESCE(e.payload, c.encrypted_payload),
    COALESCE(e.has_attachment, c.has_attachment, 0), COALESCE(e.attachment_path, c.attachment_path),
    c.pinned, c.is_locked, c.is_deleted
    FROM event_log e LEFT JOIN clipboard_history c ON e.clip_uuid = c.uuid ";

impl Sql {
    fn new(device_id: &str) -> Sql {
        let conn = Connection::open_in_memory().unwrap();
        conn.execute_batch(
            "CREATE TABLE clipboard_history (
                id INTEGER PRIMARY KEY AUTOINCREMENT,
                content_type TEXT NOT NULL,
                encrypted_payload BLOB NOT NULL,
                timestamp INTEGER NOT NULL,
                pinned BOOLEAN NOT NULL DEFAULT 0,
                is_deleted BOOLEAN NOT NULL DEFAULT 0,
                is_locked BOOLEAN NOT NULL DEFAULT 0,
                payload_hash TEXT,
                has_attachment BOOLEAN NOT NULL DEFAULT 0,
                attachment_path TEXT,
                uuid TEXT UNIQUE
            );
            CREATE TABLE event_log (
                id INTEGER PRIMARY KEY AUTOINCREMENT,
                event_type TEXT NOT NULL,
                clip_uuid TEXT NOT NULL,
                device_id TEXT NOT NULL,
                vector_clock INTEGER NOT NULL,
                timestamp INTEGER NOT NULL,
                content_type TEXT,
                payload BLOB,
                has_attachment BOOLEAN DEFAULT 0,
                attachment_path TEXT
            );
            CREATE UNIQUE INDEX idx_event_log_unique ON event_log(clip_uuid, device_id, vector_clock);
            CREATE INDEX idx_event_log_vector_clock ON event_log(vector_clock);
            CREATE TABLE peer_sync_state (
                author_id TEXT NOT NULL,
                peer_id TEXT NOT NULL,
                acknowledged_clock INTEGER NOT NULL DEFAULT 0,
                PRIMARY KEY (author_id, peer_id)
            );
            CREATE TABLE known_peers (
                device_id TEXT PRIMARY KEY,
                name TEXT NOT NULL DEFAULT '',
                last_seen INTEGER NOT NULL DEFAULT 0
            );",
        )
        .unwrap();
        Sql { conn, device_id: device_id.to_string() }
    }

    fn next_hlc(&self, physical: i64) -> i64 {
        let max: i64 = self
            .conn
            .query_row("SELECT MAX(vector_clock) FROM event_log", [], |row| row.get(0))
            .unwrap_or(0);
        std::cmp::max(physical, max + 1)
    }

    fn insert_clip(
        &self,
        ctype: &str,
        payload: &[u8],
        limit: i64,
        attached: bool,
        path: Option<String>,
        uuid: &str,
        timestamp: i64,
        physical: i64,
    ) -> rusqlite::Result<i64> {
        let mut hasher = Sha256::new();
        hasher.update(payload);
        let hash = hex::encode(hasher.finalize());
        self.conn.execute(
            "INSERT INTO clipboard_history (uuid, content_type, encrypted_payload, timestamp, pinned, is_deleted, is_locked, payload_hash, has_attachment, attachment_path) VALUES (?1, ?2, ?3, ?4, 0, 0, 0, ?5, ?6, ?7)",
            (uuid, ctype, payload, timestamp, hash, attached, path.clone()),
        )?;
        let clock = self.next_hlc(physical);
        self.conn.execute(
            "INSERT INTO event_log (event_type, clip_uuid, device_id, vector_clock, timestamp, content_type, payload, has_attachment, attachment_path) VALUES (?1, ?2, ?3, ?4, ?5, ?6, ?7, ?8, ?9)",
            ("INSERT", uuid, &self.device_id, clock, timestamp, ctype, payload, attached, path),
        )?;
        let new_id = self.conn.last_insert_rowid();
        let count: i64 = self.conn.query_row(
            "SELECT COUNT(*) FROM clipboard_history WHERE pinned = 0 AND is_locked = 0 AND is_deleted = 0",
            [],
            |row| row.get(0),
        )?;
        let actual_limit = if limit <= 0 { 100 } else { limit };
        if count > actual_limit {
            self.conn.execute(
                "UPDATE clipboard_history SET is_deleted = 1, encrypted_payload = NULL WHERE id IN (SELECT id FROM clipboard_history WHERE pinned = 0 AND is_locked = 0 AND is_deleted = 0 ORDER BY timestamp ASC, id ASC LIMIT ?1)",
                (count - actual_limit,),
            )?;
        }
        let _ = self.conn.execute(
            "DELETE FROM clipboard_history WHERE is_deleted = 1 AND timestamp < ?1",
            (timestamp - (7 * 24 * 60 * 60),),
        );
        Ok(new_id)
    }

    fn uuid_by_id(&self, id: i64) -> rusqlite::Result<Option<String>> {
        self.conn
            .query_row("SELECT uuid FROM clipboard_history WHERE id = ?1", [id], |row| row.get(0))
            .optional()
    }

    fn note(&self, kind: &str, uuid: &str, clock: i64, timestamp: i64, attached: bool, path: Option<String>) -> rusqlite::Result<usize> {
        self.conn.execute(
            "INSERT INTO event_log (event_type, clip_uuid, device_id, vector_clock, timestamp, has_attachment, attachment_path) VALUES (?1, ?2, ?3, ?4, ?5, ?6, ?7)",
            (kind, uuid, &self.device_id, clock, timestamp, attached, path),
        )
    }

    fn toggle_pin(&self, id: i64, pinned: bool, timestamp: i64, physical: i64) -> rusqlite::Result<()> {
        let (uuid, attached, path): (String, bool, Option<String>) = self.conn.query_row(
            "SELECT uuid, has_attachment, attachment_path FROM clipboard_history WHERE id = ?1",
            [id],
            |row| Ok((row.get(0)?, row.get(1)?, row.get(2)?)),
        )?;
        self.conn.execute("UPDATE clipboard_history SET pinned = ?1 WHERE id = ?2", (pinned, id))?;
        let clock = self.next_hlc(physical);
        self.note(if pinned { "PIN" } else { "UNPIN" }, &uuid, clock, timestamp, attached, path)?;
        Ok(())
    }

    fn toggle_lock(&self, id: i64, locked: bool, timestamp: i64, physical: i64) -> rusqlite::Result<()> {
        self.conn.execute("UPDATE clipboard_history SET is_locked = ?1 WHERE id = ?2", (locked, id))?;
        if locked {
            if let Some(uuid) = self.uuid_by_id(id)? {
                let clock = self.next_hlc(physical);
                let _ = self.conn.execute(
                    "INSERT OR IGNORE INTO event_log (event_type, clip_uuid, device_id, vector_clock, timestamp, has_attachment, attachment_path) VALUES ('LOCK', ?1, ?2, ?3, ?4, 0, NULL)",
                    (&uuid, &self.device_id, clock, timestamp),
                );
            }
        }
        Ok(())
    }

    fn delete_clip(&self, id: i64, timestamp: i64, physical: i64) -> rusqlite::Result<()> {
        self.conn.execute("UPDATE clipboard_history SET is_deleted = 1, pinned = 0 WHERE id = ?1", (id,))?;
        if let Some(uuid) = self.uuid_by_id(id)? {
            let clock = self.next_hlc(physical);
            let _ = self.note("DELETE", &uuid, clock, timestamp, false, None);
        }
        Ok(())
    }

    fn permanently_delete_clip(&self, id: i64, timestamp: i64, physical: i64) -> rusqlite::Result<()> {
        if let Some(uuid) = self.uuid_by_id(id)? {
            let clock = self.next_hlc(physical);
            let _ = self.note("DELETE", &uuid, clock, timestamp, false, None);
        }
        self.conn.execute("DELETE FROM clipboard_history WHERE id = ?1", (id,))?;
        Ok(())
    }

    fn clear_all(&self, delete_locked: bool, timestamp: i64, physical: i64) -> rusqlite::Result<()> {
        // The statement leaves the order of the rows open; here it is that of the history.
        let mut uuids = Vec::new();
        let (select, update) = if delete_locked {
            ("SELECT uuid FROM clipboard_history ORDER BY id", "UPDATE clipboard_history SET is_deleted = 1")
        } else {
            (
                "SELECT uuid FROM clipboard_history WHERE is_locked = 0",
                "UPDATE clipboard_history SET is_deleted = 1 WHERE is_locked = 0",
            )
        };
        {
            let mut stmt = self.conn.prepare(select)?;
            let mut rows = stmt.query([])?;
            while let Some(row) = rows.next()? {
                uuids.push(row.get::<_, String>(0)?);
            }
        }
        self.conn.execute(update, ())?;
        let clock = self.next_hlc(physical);
        for uuid in uuids {
            let _ = self.note("DELETE", &uuid, clock, timestamp, false, None);
        }
        Ok(())
    }

    fn apply(&self, events: &[SyncEvent], now: i64) -> rusqlite::Result<()> {
        for evt in events {
            if evt.timestamp > now + 3600_000_000 {
                continue;
            }
            let min_clock: i64 = self
                .conn
                .query_row(
                    "SELECT acknowledged_clock FROM peer_sync_state WHERE author_id = ?1 AND peer_id = ?2",
                    [&evt.device_id, &self.device_id],
                    |r| r.get(0),
                )
                .unwrap_or(0);
            if evt.vector_clock <= min_clock {
                continue;
            }
            let latest: Option<(i64, String)> = self
                .conn
                .query_row(
                    "SELECT timestamp, device_id FROM event_log WHERE clip_uuid = ?1 ORDER BY timestamp DESC, device_id DESC LIMIT 1",
                    [&evt.clip_uuid],
                    |row| Ok((row.get(0)?, row.get(1)?)),
                )
                .optional()?;
            let mut should_apply = true;
            if let Some((time, dev)) = latest {
                if time > evt.timestamp || (time == evt.timestamp && dev >= evt.device_id) {
                    should_apply = false;
                }
            }
            if should_apply {
                let attached = evt.has_attachment.unwrap_or(false);
                let pinned = evt.pinned.unwrap_or(false);
                let locked = evt.is_locked.unwrap_or(false);
                if evt.event_type == "INSERT" || evt.event_type == "UPDATE" {
                    if let Some(ctype) = &evt.content_type {
                        if let Some(payload) = &evt.payload {
                            self.conn.execute(
                                "INSERT INTO clipboard_history (uuid, content_type, encrypted_payload, timestamp, pinned, is_locked, is_deleted, has_attachment, attachment_path)
                                 VALUES (?1, ?2, ?3, ?4, ?5, ?6, 0, ?7, ?8)
                                 ON CONFLICT(uuid) DO UPDATE SET content_type=excluded.content_type, encrypted_payload=excluded.encrypted_payload,
                                 timestamp=excluded.timestamp, pinned=excluded.pinned, is_locked=excluded.is_locked,
                                 has_attachment=excluded.has_attachment, attachment_path=excluded.attachment_path",
                                (&evt.clip_uuid, ctype, payload, evt.timestamp, pinned, locked, attached, evt.attachment_path.clone()),
                            )?;
                        } else if attached {
                            self.conn.execute(
                                "INSERT INTO clipboard_history (uuid, content_type, encrypted_payload, timestamp, pinned, is_locked, is_deleted, has_attachment, attachment_path)
                                 VALUES (?1, ?2, x'', ?3, ?4, ?5, 0, ?6, ?7)
                                 ON CONFLICT(uuid) DO UPDATE SET content_type=excluded.content_type,
                                 timestamp=excluded.timestamp, pinned=excluded.pinned, is_locked=excluded.is_locked,
                                 has_attachment=excluded.has_attachment, attachment_path=excluded.attachment_path",
                                (&evt.clip_uuid, ctype, evt.timestamp, pinned, locked, attached, evt.attachment_path.clone()),
                            )?;
                        }
                    }
                } else if evt.event_type == "DELETE" {
                    let _ = self.conn.execute(
                        "INSERT INTO clipboard_history (uuid, content_type, encrypted_payload, timestamp, pinned, is_locked, is_deleted, has_attachment, attachment_path)
                         VALUES (?1, 'text', x'', ?2, 0, 0, 1, 0, NULL)
                         ON CONFLICT(uuid) DO UPDATE SET is_deleted = 1",
                        (&evt.clip_uuid, evt.timestamp),
                    );
                } else if evt.event_type == "LOCK" {
                    let _ = self.conn.execute("UPDATE clipboard_history SET is_locked = 1 WHERE uuid = ?1", [&evt.clip_uuid]);
                } else if evt.event_type == "PIN" {
                    let _ = self.conn.execute("UPDATE clipboard_history SET pinned = 1 WHERE uuid = ?1", [&evt.clip_uuid]);
                } else if evt.event_type == "UNPIN" {
                    let _ = self.conn.execute("UPDATE clipboard_history SET pinned = 0 WHERE uuid = ?1", [&evt.clip_uuid]);
                }
            }
            let _ = self.conn.execute(
                "INSERT OR IGNORE INTO event_log (event_type, clip_uuid, device_id, vector_clock, timestamp, content_type, payload, has_attachment, attachment_path) VALUES (?1, ?2, ?3, ?4, ?5, ?6, ?7, ?8, ?9)",
                (
                    &evt.event_type,
                    &evt.clip_uuid,
                    &evt.device_id,
                    evt.vector_clock,
                    evt.timestamp,
                    evt.content_type.clone(),
                    evt.payload.clone(),
                    evt.has_attachment.unwrap_or(false),
                    evt.attachment_path.clone(),
                ),
            );
            let _ = self.conn.execute(
                "INSERT INTO peer_sync_state (author_id, peer_id, acknowledged_clock) VALUES (?1, ?2, ?3)
                 ON CONFLICT(author_id, peer_id) DO UPDATE SET acknowledged_clock = MAX(acknowledged_clock, excluded.acknowledged_clock)",
                (&evt.device_id, &self.device_id, evt.vector_clock),
            );
        }
        Ok(())
    }

    fn prune(&self) {
        let count: i64 = self.conn.query_row("SELECT COUNT(*) FROM peer_sync_state", [], |r| r.get(0)).unwrap();
        if count == 0 {
            return;
        }
        let min: i64 = self
            .conn
            .query_row("SELECT MIN(acknowledged_clock) FROM peer_sync_state WHERE author_id = ?1", [&self.device_id], |r| r.get(0))
            .unwrap_or(0);
        self.conn
            .execute("DELETE FROM event_log WHERE vector_clock <= ?1 AND device_id = ?2", (min, &self.device_id))
            .unwrap();
    }

    fn sequence(&self, table: &str) -> i64 {
        self.conn
            .query_row("SELECT seq FROM sqlite_sequence WHERE name = ?1", [table], |r| r.get(0))
            .optional()
            .unwrap()
            .unwrap_or(0)
    }

    fn clips(&self) -> Vec<Clip> {
        let mut stmt = self
            .conn
            .prepare("SELECT id, uuid, content_type, encrypted_payload, timestamp, pinned, is_deleted, is_locked, payload_hash, has_attachment, attachment_path FROM clipboard_history ORDER BY id")
            .unwrap();
        let rows = stmt
            .query_map([], |r| {
                Ok((r.get(0)?, r.get(1)?, r.get(2)?, r.get(3)?, r.get(4)?, r.get(5)?, r.get(6)?, r.get(7)?, r.get(8)?, r.get(9)?, r.get(10)?))
            })
            .unwrap();
        rows.map(|r| r.unwrap()).collect()
    }

    fn events(&self) -> Vec<Event> {
        let mut stmt = self
            .conn
            .prepare("SELECT id, event_type, clip_uuid, device_id, vector_clock, timestamp, content_type, payload, has_attachment, attachment_path FROM event_log ORDER BY id")
            .unwrap();
        let rows = stmt
            .query_map([], |r| {
                Ok((r.get(0)?, r.get(1)?, r.get(2)?, r.get(3)?, r.get(4)?, r.get(5)?, r.get(6)?, r.get(7)?, r.get(8)?, r.get(9)?))
            })
            .unwrap();
        rows.map(|r| r.unwrap()).collect()
    }

    fn states(&self) -> Vec<(String, String, i64)> {
        let mut stmt = self
            .conn
            .prepare("SELECT author_id, peer_id, acknowledged_clock FROM peer_sync_state ORDER BY author_id, peer_id")
            .unwrap();
        let rows = stmt.query_map([], |r| Ok((r.get(0)?, r.get(1)?, r.get(2)?))).unwrap();
        rows.map(|r| r.unwrap()).collect()
    }

    fn handed(&self, tail: &str) -> Vec<SyncEvent> {
        let mut stmt = self.conn.prepare(&format!("{}{}", HANDED, tail)).unwrap();
        let rows = stmt
            .query_map([], |row| {
                let mut event_type: String = row.get(0)?;
                let is_deleted: Option<bool> = row.get(11).unwrap_or(None);
                let mut payload: Option<Vec<u8>> = row.get(6).ok();
                if is_deleted == Some(true) && event_type != "DELETE" {
                    event_type = "DELETE".to_string();
                    payload = None;
                }
                Ok(SyncEvent {
                    event_type,
                    clip_uuid: row.get(1)?,
                    device_id: row.get(2)?,
                    vector_clock: row.get(3)?,
                    timestamp: row.get(4)?,
                    content_type: row.get(5).ok(),
                    payload,
                    has_attachment: row.get(7).ok(),
                    attachment_path: row.get(8).ok(),
                    pinned: row.get(9).ok(),
                    is_locked: row.get(10).ok(),
                })
            })
            .unwrap();
        rows.map(|r| r.unwrap()).collect()
    }
}

fn lib_clips(db: &Database) -> Vec<Clip> {
    db.clip_rows()
        .iter()
        .map(|c| {
            (
                c.id,
                c.uuid.clone(),
                c.content_type.clone(),
                c.encrypted_payload.clone(),
                c.timestamp,
                c.pinned,
                c.is_deleted,
                c.is_locked,
                c.payload_hash.clone(),
                c.has_attachment,
                c.attachment_path.clone(),
            )
        })
        .collect()
}

fn lib_events(db: &Database) -> Vec<Event> {
    db.event_rows()
        .iter()
        .map(|e| {
            (
                e.id,
                e.event_type.clone(),
                e.clip_uuid.clone(),
                e.device_id.clone(),
                e.vector_clock,
                e.timestamp,
                e.content_type.clone(),
                e.payload.clone(),
                e.has_attachment,
                e.attachment_path.clone(),
            )
        })
        .collect()
}

fn lib_states(db: &Database) -> Vec<(String, String, i64)> {
    let mut v: Vec<(String, String, i64)> = db
        .state_rows()
        .iter()
        .map(|s| (s.author_id.clone(), s.peer_id.clone(), s.acknowledged_clock))
        .collect();
    v.sort();
    v
}

fn flat(e: &SyncEvent) -> String {
    format!("{:?}", e)
}

fn compare(sql: &Sql, db: &Database, step: usize) {
    assert_eq!(sql.clips(), lib_clips(db), "clips after step {}", step);
    assert_eq!(sql.events(), lib_events(db), "events after step {}", step);
    assert_eq!(sql.states(), lib_states(db), "states after step {}", step);
    assert_eq!(sql.sequence("clipboard_history"), db.clip_sequence(), "clip sequence after step {}", step);
    assert_eq!(sql.sequence("event_log"), db.event_sequence(), "event sequence after step {}", step);
}

fn compare_readings(sql: &Sql, db: &Database, rng: &mut Rng) {
    let all: Vec<String> = sql.handed("ORDER BY e.id ASC").iter().map(flat).collect();
    let mut clocks = Clocks::new();
    let bound = rng.below(60) as i64;
    clocks.insert("B".to_string(), bound);
    let limit = rng.below(8) as i64 - 1;
    let expected: Vec<String> = sql
        .handed("ORDER BY e.id ASC")
        .iter()
        .filter(|e| e.vector_clock > if e.device_id == "B" { bound } else { 0 })
        .take(std::cmp::max(limit, 1) as usize)
        .map(flat)
        .collect();
    assert_eq!(db.get_missing_events(&clocks, limit).iter().map(flat).collect::<Vec<_>>(), expected);
    assert!(all.len() >= expected.len());

    let mut recent: Vec<String> = sql
        .handed(&format!("WHERE e.device_id = 'A' ORDER BY e.id DESC LIMIT {}", limit))
        .iter()
        .map(flat)
        .collect();
    recent.reverse();
    assert_eq!(db.get_recent_events(limit).iter().map(flat).collect::<Vec<_>>(), recent);

    let since = sql.handed(&format!("WHERE e.vector_clock > {} ORDER BY e.vector_clock ASC", bound));
    let mine = db.get_events_since_hlc(bound);
    assert_eq!(
        mine.iter().map(|e| e.vector_clock).collect::<Vec<_>>(),
        since.iter().map(|e| e.vector_clock).collect::<Vec<_>>()
    );
    let mut a: Vec<String> = mine.iter().map(flat).collect();
    let mut b: Vec<String> = since.iter().map(flat).collect();
    a.sort();
    b.sort();
    assert_eq!(a, b);

    let latest: i64 = sql
        .conn
        .query_row("SELECT COALESCE(MAX(vector_clock), 0) FROM event_log WHERE device_id = 'A'", [], |r| r.get(0))
        .unwrap();
    assert_eq!(db.get_latest_hlc(), latest);

    let ids: Vec<i64> = {
        let mut stmt = sql
            .conn
            .prepare("SELECT id FROM clipboard_history WHERE is_deleted = 0 ORDER BY id DESC LIMIT 100")
            .unwrap();
        let rows = stmt.query_map([], |r| r.get(0)).unwrap();
        rows.map(|r| r.unwrap()).collect()
    };
    assert_eq!(db.get_all_clips().iter().map(|c| c.0).collect::<Vec<_>>(), ids);
    let gone: Vec<i64> = {
        let mut stmt = sql.conn.prepare("SELECT id FROM clipboard_history WHERE is_deleted = 1 ORDER BY id DESC").unwrap();
        let rows = stmt.query_map([], |r| r.get(0)).unwrap();
        rows.map(|r| r.unwrap()).collect()
    };
    assert_eq!(db.get_deleted_clips().iter().map(|c| c.0).collect::<Vec<_>>(), gone);
    let newest: Option<Vec<u8>> = sql
        .conn
        .query_row("SELECT encrypted_payload FROM clipboard_history WHERE is_deleted = 0 ORDER BY id DESC LIMIT 1", [], |r| r.get(0))
        .optional()
        .unwrap();
    assert_eq!(db.get_latest_hash(), newest);
}

struct Rng(u64);

impl Rng {
    fn below(&mut self, n: u64) -> u64 {
        self.0 = self.0.wrapping_mul(6364136223846793005).wrapping_add(1442695040888963407);
        (self.0 >> 33) % n
    }

    fn flag(&mut self) -> bool {
        self.below(2) == 1
    }
}

fn random_event(rng: &mut Rng, now: i64) -> SyncEvent {
    let kinds = ["INSERT", "UPDATE", "DELETE", "LOCK", "PIN", "UNPIN", "OTHER"];
    let devices = ["A", "B", "C", "é"];
    SyncEvent {
        event_type: kinds[rng.below(7) as usize].to_string(),
        clip_uuid: format!("u{}", rng.below(12)),
        device_id: devices[rng.below(4) as usize].to_string(),
        vector_clock: rng.below(60) as i64,
        timestamp: if rng.below(10) == 0 { now + 3_600_000_001 } else { now - rng.below(5) as i64 },
        content_type: if rng.below(4) == 0 { None } else { Some("text".to_string()) },
        payload: if rng.below(3) == 0 { None } else { Some(vec![rng.below(256) as u8; rng.below(4) as usize]) },
        has_attachment: [None, Some(false), Some(true)][rng.below(3) as usize],
        attachment_path: if rng.flag() { None } else { Some(format!("p{}", rng.below(3))) },
        pinned: [None, Some(false), Some(true)][rng.below(3) as usize],
        is_locked: [None, Some(false), Some(true)][rng.below(3) as usize],
    }
}

fn run(seed: u64, steps: usize) {
    let mut rng = Rng(seed);
    let sql = Sql::new("A");
    let mut db = Database::new("A".to_string());
    let mut now: i64 = 1_000_000_000;
    for step in 0..steps {
        now += rng.below(300_000) as i64;
        let id = rng.below(14) as i64;
        let physical = if rng.below(3) == 0 { rng.below(70) as i64 } else { 0 };
        match rng.below(14) {
            0 | 1 | 2 => {
                let uuid = format!("u{}", rng.below(12));
                let payload = vec![rng.below(3) as u8; 3];
                let limit = rng.below(9) as i64 - 1;
                let path = if rng.flag() { Some("p".to_string()) } else { None };
                let a = sql.insert_clip("text", &payload, limit, path.is_some(), path.clone(), &uuid, now, physical);
                let b = db.insert_clip_at("text", &payload, limit, path.is_some(), path, uuid, now, physical);
                assert_eq!(a.ok(), b.ok(), "insertion at step {}", step);
            }
            3 => {
                let flag = rng.flag();
                let a = sql.toggle_pin(id, flag, now, physical);
                let b = db.toggle_pin_at(id, flag, now, physical);
                assert_eq!(a.is_ok(), b.is_ok());
            }
            4 => {
                let flag = rng.flag();
                let a = sql.toggle_lock(id, flag, now, physical);
                let b = db.toggle_lock_at(id, flag, now, physical);
                assert_eq!(a.is_ok(), b.is_ok());
            }
            5 => {
                let a = sql.delete_clip(id, now, physical);
                let b = db.delete_clip_at(id, now, physical);
                assert_eq!(a.is_ok(), b.is_ok());
            }
            6 => {
                let a = sql.permanently_delete_clip(id, now, physical);
                let b = db.permanently_delete_clip_at(id, now, physical);
                assert_eq!(a.is_ok(), b.is_ok());
            }
            7 => {
                sql.conn.execute("UPDATE clipboard_history SET is_deleted = 0 WHERE id = ?1", (id,)).unwrap();
                db.restore_clip(id);
            }
            8 => {
                let flag = rng.flag();
                let a = sql.clear_all(flag, now, physical);
                let b = db.clear_all_at(flag, now, physical);
                assert_eq!(a.is_ok(), b.is_ok());
            }
            9 | 10 | 11 => {
                let mut events = Vec::new();
                for _ in 0..rng.below(6) {
                    events.push(random_event(&mut rng, now));
                }
                let a = sql.apply(&events, now);
                let b = db.apply_sync_events_at(&events, now);
                assert_eq!(a.is_ok(), b.is_ok());
            }
            12 => {
                let clock = rng.below(60) as i64;
                let peer = ["B", "C"][rng.below(2) as usize];
                sql.conn
                    .execute(
                        "INSERT INTO peer_sync_state (author_id, peer_id, acknowledged_clock) VALUES (?1, ?2, ?3)
                         ON CONFLICT(author_id, peer_id) DO UPDATE SET acknowledged_clock = excluded.acknowledged_clock",
                        ("A", peer, clock),
                    )
                    .unwrap();
                db.update_peer_sync_state(peer, clock);
                if rng.flag() {
                    sql.prune();
                    db.prune_tombstones();
                }
            }
            _ => match rng.below(4) {
                0 => {
                    sql.conn.execute("DELETE FROM clipboard_history WHERE is_deleted = 1", ()).unwrap();
                    db.empty_recycle_bin();
                }
                1 => {
                    let mut hasher = Sha256::new();
                    hasher.update([1u8, 1, 1]);
                    let hash = hex::encode(hasher.finalize());
                    sql.conn
                        .execute("UPDATE clipboard_history SET is_locked = ?1 WHERE payload_hash = ?2", (true, &hash))
                        .unwrap();
                    db.toggle_lock_by_hash(&hash, true);
                    let locked: bool = sql
                        .conn
                        .query_row("SELECT is_locked FROM clipboard_history WHERE payload_hash = ?1", (&hash,), |r| r.get(0))
                        .unwrap_or(false);
                    assert_eq!(db.is_locked_by_hash(&hash), locked);
                }
                2 => {
                    sql.conn.execute("DELETE FROM peer_sync_state WHERE peer_id = ?1", ["B"]).unwrap();
                    db.remove_peer_sync_state("B");
                }
                _ => {
                    sql.conn.execute("UPDATE clipboard_history SET is_locked = 0", []).unwrap();
                    db.clear_all_locks();
                }
            },
        }
        compare(&sql, &db, step);
        if step % 7 == 0 {
            compare_readings(&sql, &db, &mut rng);
        }
    }
}

#[test]
fn store_does_what_the_statements_do() {
    for seed in 1..7 {
        run(seed, 160);
    }
}

#[test]
fn known_devices_are_kept_like_the_statements_do() {
    let sql = Sql::new("A");
    let mut db = Database::new("A".to_string());
    for (id, name, seen) in [("x", "one", 5), ("y", "two", 9), ("x", "three", 7), ("z", "", 9)] {
        sql.conn
            .execute(
                "INSERT INTO known_peers (device_id, name, last_seen) VALUES (?1, ?2, ?3)
                 ON CONFLICT(device_id) DO UPDATE SET name = excluded.name, last_seen = excluded.last_seen",
                (id, name, seen),
            )
            .unwrap();
        db.upsert_known_peer_at(id, name, seen);
    }
    let mut stmt = sql
        .conn
        .prepare("SELECT device_id, name, last_seen FROM known_peers ORDER BY last_seen DESC, device_id")
        .unwrap();
    let rows = stmt.query_map([], |r| Ok((r.get(0)?, r.get(1)?, r.get(2)?))).unwrap();
    let expected: Vec<(String, String, i64)> = rows.map(|r| r.unwrap()).collect();
    let mut mine: Vec<(String, String, i64)> =
        db.get_known_peers().into_iter().map(|p| (p.device_id, p.name, p.last_seen)).collect();
    assert_eq!(mine.iter().map(|p| p.2).collect::<Vec<_>>(), vec![9, 9, 7]);
    mine.sort_by(|a, b| b.2.cmp(&a.2).then(a.0.cmp(&b.0)));
    assert_eq!(mine, expected);
}

#[test]
fn repeated_events_are_dropped_like_the_statement_does() {
    let conn = Connection::open_in_memory().unwrap();
    conn.execute_batch(
        "CREATE TABLE event_log (id INTEGER PRIMARY KEY AUTOINCREMENT, clip_uuid TEXT, device_id TEXT, vector_clock INTEGER);",
    )
    .unwrap();
    let rows = [("u", "A", 1), ("u", "B", 1), ("u", "A", 1), ("v", "A", 1), ("u", "A", 2), ("u", "B", 1)];
    let mut events = Vec::new();
    for (i, (uuid, device, clock)) in rows.iter().enumerate() {
        conn.execute("INSERT INTO event_log (clip_uuid, device_id, vector_clock) VALUES (?1, ?2, ?3)", (uuid, device, clock))
            .unwrap();
        events.push(cipherclip::tables::EventRow {
            id: i as i64 + 1,
            event_type: "INSERT".to_string(),
            clip_uuid: uuid.to_string(),
            device_id: device.to_string(),
            vector_clock: *clock,
            timestamp: 0,
            content_type: None,
            payload: None,
            has_attachment: Some(false),
            attachment_path: None,
        });
    }
    conn.execute(
        "DELETE FROM event_log WHERE id NOT IN (SELECT MIN(id) FROM event_log GROUP BY clip_uuid, device_id, vector_clock)",
        (),
    )
    .unwrap();
    let mut stmt = conn.prepare("SELECT id FROM event_log ORDER BY id").unwrap();
    let left: Vec<i64> = stmt.query_map([], |r| r.get(0)).unwrap().map(|r| r.unwrap()).collect();
    let db = Database::from_tables("A".to_string(), Vec::new(), 0, events, 6, Vec::new(), Vec::new()).unwrap();
    assert_eq!(db.event_rows().iter().map(|e| e.id).collect::<Vec<_>>(), left);
    assert_eq!(left, vec![1, 2, 4, 5]);
}
