//! The plugin for the tool `pi`.

use vstd::prelude::*;

verus! {

/// The plugin for the tool `pi`, as it is installed.
pub const PLUGIN_SOURCE: &'static str = r##"/**
 * hcom plugin for the Pi coding agent.
 *
 * It binds a Pi session to an hcom instance, reports what the session does, hands messages to the
 * session, and acknowledges them once the session has taken them in.
 */
import { spawn } from "node:child_process";
import { randomUUID } from "node:crypto";
import { mkdir, readFile, writeFile } from "node:fs/promises";
import { homedir } from "node:os";
import { dirname, join } from "node:path";
import type { ExtensionAPI, ExtensionContext } from "@mariozechner/pi-coding-agent";
import { CURSOR_MARKER } from "@mariozechner/pi-tui";

const IDLE_DEBOUNCE_MS = 750;
const RECONCILE_MS = 2_000;
const POLL_MS = 5_000;
// An idle worker reports again well inside the 10s no-TCP stale threshold.
const LISTENING_HEARTBEAT_MS = 5_000;
const KILL_GRACE_MS = 2_000;
const ACCEPT_TIMEOUT_MS = 30_000;
const PRESENCE_FEATURE = "pi-rich-presence-v1";
const CHILD_SESSION = Symbol.for("pi-subagents:child-session-context");
const BRIDGE_CONTEXT = Symbol.for("pi-subagents:supervisor-bridge-context");
const BRIDGE_PROVIDER = Symbol.for("pi-subagents:supervisor-bridge-provider");

type HcomResult = { code: number; stdout: string; stderr: string };
type HcomMessage = {
	event_id?: number;
	message_id?: string;
	from?: string;
	text?: string;
	attachments?: Array<{ path?: string; sha256?: string }>;
};
type Pending = { formatted: string; messages: HcomMessage[] };
type Bridge = {
	expiresAt: number;
	generation: number;
	contact: (kind: string, text: string, signal?: AbortSignal) => Promise<HcomResult>;
};

function hcomDir(): string {
	return process.env.HCOM_DIR || join(homedir(), ".hcom");
}

function isPiSubagentChildSession(): boolean {
	return Boolean((globalThis as Record<symbol, unknown>)[CHILD_SESSION]);
}

function log(event: string, fields: Record<string, unknown> = {}): void {
	if (process.env.HCOM_PI_DEBUG) console.error(JSON.stringify({ event, ...fields }));
}

function hcom(args: string[], signal?: AbortSignal): Promise<HcomResult> {
	return new Promise((resolve) => {
		const child = spawn("hcom", args, { stdio: ["ignore", "pipe", "pipe"] });
		let stdout = "";
		let stderr = "";
		let killTimer: NodeJS.Timeout | null = null;
		const abort = () => {
			child.kill("SIGTERM");
			killTimer = setTimeout(() => child.kill("SIGKILL"), KILL_GRACE_MS);
		};
		signal?.addEventListener("abort", abort, { once: true });
		child.stdout.on("data", (chunk) => (stdout += String(chunk)));
		child.stderr.on("data", (chunk) => (stderr += String(chunk)));
		const done = (code: number) => {
			signal?.removeEventListener("abort", abort);
			if (killTimer) clearTimeout(killTimer);
			resolve({ code, stdout, stderr });
		};
		child.on("error", (error) => {
			stderr += String(error);
			done(127);
		});
		child.on("close", (code) => done(code ?? 1));
	});
}

function parseJson<T>(text: string): T | null {
	try {
		return JSON.parse(text) as T;
	} catch {
		return null;
	}
}

function collectDeliveredIdsFromMessage(message: unknown, into: Set<number>): void {
	const details = (message as { details?: { eventIds?: unknown } } | null)?.details;
	if (!Array.isArray(details?.eventIds)) return;
	for (const id of details.eventIds) {
		if (Number.isSafeInteger(Number(id))) into.add(Number(id));
	}
}

function describeAttachments(message: HcomMessage): string {
	return (message.attachments ?? [])
		.map((attachment) => `${attachment?.path ?? "?"} ${attachment?.sha256 ?? ""}`.trim())
		.join(", ");
}

async function isClosedSupervisionWorker(name: string): Promise<boolean> {
	try {
		const text = await readFile(join(hcomDir(), ".tmp", "closed-workers.json"), "utf8");
		const names = parseJson<string[]>(text);
		return Array.isArray(names) && names.some((entry) => entry === name);
	} catch {
		return false;
	}
}

function contactSupervisorTool(bridge: Bridge, current: () => number) {
	const expectedGeneration = bridge.generation;
	let asking = false;
	return {
		name: "contact_supervisor",
		description:
			"Report to the supervising session, or ask it. The target is fixed: never ask for or infer a target agent name or capability token.",
		parameters: {
			type: "object",
			properties: {
				kind: { enum: ["progress_update", "need_decision", "interview_request"] },
				text: { type: "string" },
			},
			required: ["kind", "text"],
		},
		async execute(_id: string, params: { kind: string; text: string }, signal?: AbortSignal) {
			const runtimeGeneration = current();
			if (bridge.expiresAt <= Date.now()) throw new Error("Supervisor bridge has expired");
			if (!(runtimeGeneration === expectedGeneration)) throw new Error("Parent HCOM session changed");
			const blocking = params.kind !== "progress_update";
			if (blocking && asking) throw new Error("Only one active HCOM ask is allowed");
			asking = asking || blocking;
			try {
				const result = await bridge.contact(params.kind, params.text, signal);
				if (result.code !== 0) throw new Error(result.stderr || result.stdout);
				return { content: [{ type: "text", text: result.stdout }] };
			} finally {
				if (blocking) asking = false;
			}
		},
	};
}

export default function hcomPlugin(pi: ExtensionAPI): void {
	const registry = globalThis as Record<symbol, unknown>;
	let runtimeGeneration = 0;

	if (isPiSubagentChildSession()) {
		log("plugin.bind_skipped_nested");
		const bridge = registry[BRIDGE_CONTEXT] as Bridge | undefined;
		if (bridge) pi.registerTool(contactSupervisorTool(bridge, () => bridge.generation));
		return;
	}

	const endpointEpoch = randomUUID();
	const deliveredMessageIds = new Set<number>();
	let instanceName: string | null = null;
	let sessionId: string | null = null;
	let bootstrapText: string | null = null;
	let currentCtx: ExtensionContext | null = null;
	let reconcileTimer: NodeJS.Timeout | null = null;
	let idleTimer: NodeJS.Timeout | null = null;
	let pendingAckId: number | null = null;
	let delivering = false;
	let uiPromptActive = false;
	let uiPromptEpoch = 0;
	let lastStatus = "";
	let lastListeningHeartbeatAt = 0;
	let lastPollAt = 0;
	let activeAsk: AbortController | null = null;

	function stopReconcileTimer(): void {
		if (reconcileTimer) clearInterval(reconcileTimer);
		reconcileTimer = null;
	}

	function stopIdleTimer(): void {
		if (idleTimer) clearTimeout(idleTimer);
		idleTimer = null;
	}

	function resetBinding(): void {
		stopReconcileTimer();
		stopIdleTimer();
		activeAsk?.abort();
		activeAsk = null;
		delete registry[BRIDGE_PROVIDER];
		instanceName = null;
		sessionId = null;
		bootstrapText = null;
		pendingAckId = null;
		delivering = false;
		uiPromptActive = false;
		lastStatus = "";
		lastListeningHeartbeatAt = 0;
		lastPollAt = 0;
		deliveredMessageIds.clear();
	}

	function presence(ctx: ExtensionContext): string {
		return JSON.stringify({
			feature: PRESENCE_FEATURE,
			provider: ctx.model?.provider,
			model: ctx.model?.id,
			endpointEpoch,
		});
	}

	async function reportStatus(
		ctx: ExtensionContext,
		status: string,
		context = "",
		detail = "",
	): Promise<void> {
		if (!instanceName) return;
		lastStatus = status;
		if (status === "listening") lastListeningHeartbeatAt = Date.now();
		await hcom([
			"pi-status", "--name", instanceName, "--status", status,
			"--context", context, "--detail", detail, "--presence", presence(ctx),
		]);
	}

	function ledgerPath(session: string): string {
		return join(hcomDir(), ".tmp", "pi-delivery", `${encodeURIComponent(session)}.json`);
	}

	async function loadDeliveryLedger(ctx: ExtensionContext, session: string): Promise<void> {
		for (const entry of ctx.sessionManager.getEntries()) {
			collectDeliveredIdsFromMessage((entry as { message?: unknown }).message, deliveredMessageIds);
		}
		try {
			const ids = parseJson<number[]>(await readFile(ledgerPath(session), "utf8")) ?? [];
			for (const id of ids) deliveredMessageIds.add(Number(id));
		} catch (error) {
			// ENOENT is a normal fresh-session state.
			if ((error as NodeJS.ErrnoException).code !== "ENOENT") {
				log("plugin.ledger_read_failed", { error: String(error) });
			}
		}
	}

	async function rememberDelivered(messages: HcomMessage[]): Promise<void> {
		for (const message of messages) {
			if (message.event_id !== undefined) deliveredMessageIds.add(Number(message.event_id));
		}
		if (!sessionId) return;
		const path = ledgerPath(sessionId);
		await mkdir(dirname(path), { recursive: true });
		await writeFile(path, JSON.stringify([...deliveredMessageIds]));
	}

	async function ackPending(source: string): Promise<void> {
		const upTo = pendingAckId;
		const name = instanceName;
		if (upTo === null || !name) return;
		const result = await hcom(["pi-read", "--name", name, "--ack", "--up-to", String(upTo)]);
		if (result.code !== 0) {
			log("plugin.deferred_ack_failed", { source, upTo, stderr: result.stderr });
			return;
		}
		if (pendingAckId === upTo) pendingAckId = null;
	}

	async function fetchPending(): Promise<Pending | null> {
		if (!instanceName) return null;
		const listed = await hcom(["pi-read", "--name", instanceName]);
		const all = parseJson<HcomMessage[]>(listed.stdout) ?? [];
		const messages = all.filter((m) => !deliveredMessageIds.has(Number(m.event_id)));
		if (messages.length === 0) return null;
		const formatted = messages
			.map((m) => {
				const attached = describeAttachments(m);
				const id = m.message_id ? ` [${m.message_id}]` : "";
				return `${m.from ?? "hcom"}${id}: ${m.text ?? ""}${attached ? ` (${attached})` : ""}`;
			})
			.join("\n");
		return { formatted, messages };
	}

	async function deliverPending(ctx: ExtensionContext): Promise<void> {
		if (delivering || !instanceName || pendingAckId !== null) return;
		delivering = true;
		try {
			const generation = runtimeGeneration;
			const pending = await fetchPending();
			if (!pending) return;
			if (generation !== runtimeGeneration) throw new Error("stale HCOM session generation");
			const idle = ctx.isIdle();
			const sender = pending.messages[0]?.from ?? "hcom";
			const eventIds = pending.messages.map((m) => Number(m.event_id)).filter(Number.isSafeInteger);
			const accepted = await new Promise<boolean>((settle) => {
				const timer = setTimeout(() => settle(false), ACCEPT_TIMEOUT_MS);
				const resolve = () => {
					clearTimeout(timer);
					settle(true);
				};
				pi.sendMessage(
					{ customType: "hcom-message", content: pending.formatted, display: true, details: { eventIds } },
					{ triggerTurn: idle, deliverAs: idle ? undefined : "steer", onAccepted: resolve },
				);
			});
			if (!accepted) {
				log("plugin.delivery_not_accepted", { eventIds });
				return;
			}
			await reportStatus(ctx, "active", `deliver:${sender}`);
			await rememberDelivered(pending.messages);
			pendingAckId = eventIds.length > 0 ? Math.max(...eventIds) : null;
			await ackPending(idle ? "idle" : "steer");
		} catch (error) {
			log("plugin.delivery_failed", { error: String(error) });
		} finally {
			delivering = false;
		}
	}

	async function pollPendingIfDue(ctx: ExtensionContext): Promise<void> {
		if (Date.now() - lastPollAt < POLL_MS) return;
		lastPollAt = Date.now();
		await deliverPending(ctx);
	}

	async function reconcile(): Promise<void> {
		const ctx = currentCtx;
		if (!ctx || !instanceName) return;
		await ackPending("reconcile");
		const heartbeatDue = Date.now() - lastListeningHeartbeatAt >= LISTENING_HEARTBEAT_MS;
		if (currentCtx?.isIdle() && !uiPromptActive && heartbeatDue) {
			await reportStatus(ctx, "listening");
		}
		if (!uiPromptActive) await pollPendingIfDue(ctx);
	}

	function scheduleIdle(ctx: ExtensionContext): void {
		stopIdleTimer();
		idleTimer = setTimeout(async () => {
			idleTimer = null;
			if (ctx.isIdle() && !uiPromptActive) {
				await reportStatus(ctx, "listening");
				await deliverPending(ctx);
			}
		}, IDLE_DEBOUNCE_MS);
	}

	function provideBridge(): void {
		registry[BRIDGE_PROVIDER] = (expiresAt: number): Bridge => {
			const expectedGeneration = runtimeGeneration;
			return {
				expiresAt,
				generation: expectedGeneration,
				async contact(kind, text, signal) {
					if (!(runtimeGeneration === expectedGeneration) || !instanceName) {
						throw new Error("Parent HCOM session changed");
					}
					const intent = kind === "progress_update" ? "inform" : "request";
					return hcom(["send", "--name", instanceName, "--intent", intent, "--", text], signal);
				},
			};
		};
	}

	async function bind(ctx: ExtensionContext): Promise<void> {
		currentCtx = ctx;
		runtimeGeneration += 1;
		sessionId = ctx.sessionManager.getSessionId();
		const args = [
			"pi-start", "--session-id", sessionId, "--cwd", ctx.cwd,
			"--endpoint-epoch", endpointEpoch,
		];
		const transcript = ctx.sessionManager.getSessionFile();
		if (transcript) args.push("--transcript-path", transcript);
		const started = await hcom(args);
		const reply = parseJson<{ name?: string; bootstrap?: string; error?: string }>(started.stdout);
		if (!reply?.name) {
			log("plugin.bind_failed", { error: reply?.error ?? started.stderr });
			return;
		}
		if (await isClosedSupervisionWorker(reply.name)) {
			log("plugin.bind_skipped_closed", { name: reply.name });
			return;
		}
		instanceName = reply.name;
		bootstrapText = reply.bootstrap ?? null;
		await loadDeliveryLedger(ctx, sessionId);
		provideBridge();
		stopReconcileTimer();
		reconcileTimer = setInterval(() => void reconcile(), RECONCILE_MS);
		await reportStatus(ctx, "listening");
	}

	pi.on("session_start", async (_event, ctx) => {
		resetBinding();
		await bind(ctx);
	});

	pi.on("before_agent_start", async () => {
		if (!bootstrapText) return;
		const content = bootstrapText;
		bootstrapText = null;
		return { message: { customType: "hcom-bootstrap", content, display: false } };
	});

	pi.on("agent_start", async (_event, ctx) => {
		currentCtx = ctx;
		stopIdleTimer();
		if (lastStatus !== "active") await reportStatus(ctx, "active");
	});

	pi.on("turn_end", async (_event, ctx) => {
		currentCtx = ctx;
		if (!uiPromptActive) await pollPendingIfDue(ctx);
	});

	pi.on("agent_end", async (_event, ctx) => {
		currentCtx = ctx;
		scheduleIdle(ctx);
	});

	pi.on("tool_call", async (event, ctx) => {
		currentCtx = ctx;
		if (!instanceName) return;
		await hcom([
			"pi-beforetool", "--name", instanceName, "--tool", event.toolName,
			"--input-json", JSON.stringify(event.input ?? {}),
		]);
	});

	pi.on("ui_prompt_start", async (event, ctx) => {
		currentCtx = ctx;
		uiPromptActive = true;
		const epoch = ++uiPromptEpoch;
		stopIdleTimer();
		await Promise.resolve();
		if (epoch !== uiPromptEpoch || !uiPromptActive) return;
		await reportStatus(ctx, "blocked", "ui_prompt", event.kind);
	});

	pi.on("ui_prompt_end", async (_event, ctx) => {
		currentCtx = ctx;
		uiPromptActive = false;
		uiPromptEpoch += 1;
		if (ctx.isIdle()) scheduleIdle(ctx);
		else await reportStatus(ctx, "active");
	});

	pi.on("session_shutdown", async (event) => {
		const reason = event.reason ?? "quit";
		const replacingSession = ["reload", "new", "resume", "fork"].includes(reason);
		if (instanceName && !replacingSession) {
			await hcom(["pi-stop", "--name", instanceName, "--reason", reason]);
		} else if (instanceName) {
			log("plugin.session_replacement", { reason });
		}
		resetBinding();
		currentCtx = null;
	});

	pi.registerTool({
		name: "hcom",
		label: "hcom",
		description:
			"Use hcom when another agent has to be told or asked something. Actions: send, ask, pending, reply, wait, cancel, inspect.",
		parameters: {
			type: "object",
			properties: {
				action: { enum: ["send", "ask", "pending", "reply", "wait", "cancel", "inspect"] },
				target: { type: "string" },
				message_id: { type: "string" },
				text: { type: "string" },
			},
			required: ["action"],
		},
		async execute(
			_id: string,
			params: { action: string; target?: string; message_id?: string; text?: string },
			signal?: AbortSignal,
		) {
			if (!instanceName) throw new Error("This session is not bound to an hcom instance");
			const name = ["--name", instanceName];
			const reference = params.message_id ?? "";
			const blocking = params.action === "ask" || params.action === "wait";
			if (blocking && activeAsk) throw new Error("Only one active HCOM ask is allowed");
			const generation = runtimeGeneration;
			const controller = new AbortController();
			signal?.addEventListener("abort", () => controller.abort(), { once: true });
			if (blocking) activeAsk = controller;
			try {
				const commands: Record<string, string[]> = {
					send: ["send", ...name, `@${params.target ?? ""}`, "--", params.text ?? ""],
					ask: ["send", ...name, `@${params.target ?? ""}`, "--intent", "request", "--wait", "--", params.text ?? ""],
					pending: ["message", "pending", ...name, "--json"],
					reply: ["message", "reply", reference, ...name, "--json", "--", params.text ?? ""],
					wait: ["message", "wait", reference, ...name, "--json"],
					cancel: ["message", "cancel", reference, ...name, "--json"],
					inspect: ["message", "inspect", reference, ...name, "--json"],
				};
				const result = await hcom(commands[params.action] ?? commands.pending, controller.signal);
				if (generation !== runtimeGeneration) throw new Error("stale HCOM session generation");
				if (result.code !== 0) throw new Error(result.stderr || result.stdout);
				return { content: [{ type: "text", text: result.stdout }] };
			} finally {
				if (activeAsk === controller) activeAsk = null;
			}
		},
	});

	async function showOverlay(ctx: ExtensionContext): Promise<void> {
		if (!instanceName) return;
		const name = instanceName;
		const listed = await hcom(["message", "pending", "--name", name]);
		try {
			await ctx.ui.custom((tui, _theme, _keys, done) => {
				let draft = "";
				return {
					render: (width: number) =>
						[`hcom ${name}`, ...listed.stdout.split("\n"), `> ${draft}${CURSOR_MARKER}`].map((line) =>
							line.slice(0, width),
						),
					invalidate: () => {},
					handleInput: (data: string) => {
						if (data === "\u001b") return done(undefined);
						if (data === "\r") {
							void hcom(["send", "--name", name, "--", draft]);
							return done(undefined);
						}
						draft = data === "\u007f" ? draft.slice(0, -1) : draft + data;
						tui.requestRender();
					},
				};
			});
		} catch (error) {
			log("plugin.ui_overlay_failed", { error: String(error) });
		}
	}

	pi.registerCommand("hcom", {
		description: "Show what waits for an answer, and write a message",
		handler: async (_args, ctx) => showOverlay(ctx),
	});

	pi.registerShortcut("alt+m", {
		description: "Open hcom",
		handler: async (ctx) => showOverlay(ctx),
	});
}
"##;

} // verus!
